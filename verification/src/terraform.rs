//! Decisions taken around the `terraform` runs: what to initialise, which part
//! of a plan to show, and what to report of the cloud state.

use vstd::prelude::*;
use crate::text::{
    append_chars, chars_of, contains, contains_seq, join_lines, lemma_join_lines_nonempty, string_of,
    views,
};

verus! {

broadcast use vstd::string::group_string_axioms;

/// The number of characters before the first line feed of `s` (all of `s` if it has none).
pub open spec fn line_end(s: Seq<char>) -> nat
    decreases s.len(),
{
    if s.len() == 0 {
        0
    } else if s[0] == '\n' {
        0
    } else {
        1 + line_end(s.skip(1))
    }
}

/// A line without the carriage return that ended it, if any.
pub open spec fn strip_cr(l: Seq<char>) -> Seq<char> {
    if l.len() > 0 && l.last() == '\r' {
        l.drop_last()
    } else {
        l
    }
}

/// The lines of `s` as `str::lines` yields them: split at each line feed, a
/// carriage return before a line feed dropped, and no empty last line after a
/// final line feed.
pub open spec fn spec_lines(s: Seq<char>) -> Seq<Seq<char>>
    decreases s.len(),
{
    if s.len() == 0 {
        Seq::empty()
    } else {
        let k = line_end(s);
        if k < s.len() {
            seq![strip_cr(s.take(k as int))] + spec_lines(s.skip(k as int + 1))
        } else {
            seq![s]
        }
    }
}

/// The number of trailing lines of a plan that are cut before it is shown.
pub open spec fn plan_margin() -> nat {
    6
}

/// What of a `terraform plan` output is shown before it is applied: nothing
/// when the plan says "No changes."; the whole output when it has fewer lines
/// than the margin; else its lines but the last six, each ended by a line feed.
pub open spec fn spec_plan_changes(out: Seq<char>) -> Seq<char> {
    if contains_seq(out, "No changes."@) {
        Seq::empty()
    } else {
        let ls = spec_lines(out);
        if ls.len() < plan_margin() {
            out
        } else {
            join_lines(ls.take(ls.len() - plan_margin()))
        }
    }
}

proof fn lemma_line_end_exact(t: Seq<char>, k: int)
    requires
        0 <= k <= t.len(),
        forall|j: int| 0 <= j < k ==> t[j] != '\n',
        k == t.len() || t[k] == '\n',
    ensures
        line_end(t) == k,
    decreases k,
{
    if k > 0 {
        assert forall|j: int| 0 <= j < k - 1 implies t.skip(1)[j] != '\n' by {
            assert(t.skip(1)[j] == t[j + 1]);
        }
        if k < t.len() {
            assert(t.skip(1)[k - 1] == t[k]);
        }
        lemma_line_end_exact(t.skip(1), k - 1);
    }
}

/// The lines of `s`, as `str::lines` yields them.
pub fn split_lines(s: &Vec<char>) -> (lines: Vec<Vec<char>>)
    ensures
        views(lines@) == spec_lines(s@),
{
    let mut lines: Vec<Vec<char>> = Vec::new();
    let mut cur: Vec<char> = Vec::new();
    let mut start: usize = 0;
    let mut i: usize = 0;
    assert(s@.skip(0) =~= s@);
    while i < s.len()
        invariant
            start <= i <= s@.len(),
            cur@ == s@.subrange(start as int, i as int),
            forall|k: int| start <= k < i ==> s@[k] != '\n',
            views(lines@) + spec_lines(s@.skip(start as int)) == spec_lines(s@),
        decreases s@.len() - i,
    {
        if s[i] == '\n' {
            let ghost t = s@.skip(start as int);
            proof {
                assert forall|j: int| 0 <= j < i - start implies t[j] != '\n' by {
                    assert(t[j] == s@[start + j]);
                }
                assert(t[i - start] == s@[i as int]);
                lemma_line_end_exact(t, i - start);
                assert(t.take(i - start) =~= cur@);
                assert(t.skip(i - start + 1) =~= s@.skip(i + 1));
            }
            let ghost before = views(lines@);
            let n = cur.len();
            if n > 0 && cur[n - 1] == '\r' {
                cur.pop();
            }
            lines.push(cur);
            cur = Vec::new();
            assert(views(lines@) =~= before.push(strip_cr(t.take(i - start))));
            assert(views(lines@) + spec_lines(s@.skip(i + 1)) =~= before + (seq![
                strip_cr(t.take(i - start))] + spec_lines(t.skip(i - start + 1))));
            start = i + 1;
        } else {
            cur.push(s[i]);
        }
        i = i + 1;
        assert(cur@ =~= s@.subrange(start as int, i as int));
    }
    let ghost t = s@.skip(start as int);
    if start < s.len() {
        proof {
            assert forall|j: int| 0 <= j < s@.len() - start implies t[j] != '\n' by {
                assert(t[j] == s@[start + j]);
            }
            lemma_line_end_exact(t, s@.len() - start);
            assert(cur@ =~= t);
        }
        let ghost before = views(lines@);
        lines.push(cur);
        assert(views(lines@) =~= before.push(t));
    } else {
        assert(t =~= Seq::<char>::empty());
        assert(views(lines@) + spec_lines(t) =~= views(lines@));
    }
    lines
}

/// The first `n` lines, each followed by a line feed.
fn join_first(lines: &Vec<Vec<char>>, n: usize) -> (out: Vec<char>)
    requires
        n <= lines@.len(),
    ensures
        out@ == join_lines(views(lines@).take(n as int)),
{
    let mut out: Vec<char> = Vec::new();
    let mut k: usize = 0;
    while k < n
        invariant
            k <= n <= lines@.len(),
            out@ == join_lines(views(lines@).take(k as int)),
        decreases n - k,
    {
        append_chars(&mut out, &lines[k]);
        out.push('\n');
        proof {
            let t = views(lines@).take(k + 1);
            assert(t.drop_last() =~= views(lines@).take(k as int));
            assert(t.last() == lines@[k as int]@);
        }
        k = k + 1;
    }
    out
}

/// What of a `terraform plan` output is shown before it is applied (empty:
/// nothing to apply).
pub fn plan_changes(output: &str) -> (shown: String)
    ensures
        shown@ == spec_plan_changes(output@),
        contains_seq(output@, "No changes."@) ==> shown@.len() == 0,
        !contains_seq(output@, "No changes."@) && spec_lines(output@).len() < 6 ==> shown@ == output@,
        !contains_seq(output@, "No changes."@) && spec_lines(output@).len() >= 6 ==> shown@
            == join_lines(spec_lines(output@).take(spec_lines(output@).len() - 6)),
        !contains_seq(output@, "No changes."@) && spec_lines(output@).len() > 6 ==> shown@.len() > 0,
{
    proof {
        let ls = spec_lines(output@);
        if ls.len() > 6 {
            lemma_join_lines_nonempty(ls.take(ls.len() - 6));
        }
    }
    if contains(output, "No changes.") {
        return String::new();
    }
    let chars = chars_of(output);
    let lines = split_lines(&chars);
    if lines.len() < 6 {
        output.to_owned()
    } else {
        let out = join_first(&lines, lines.len() - 6);
        string_of(out.as_slice())
    }
}

/// What `terraform show` printed, or the note that there is no state when
/// the output is 13 bytes long or shorter.
pub fn aws_state_text(output: &str) -> (text: String)
    ensures
        text@ == (if output.len() > 13 {
            output@
        } else {
            "No state.\n"@
        }),
{
    if output.len() > 13 {
        output.to_owned()
    } else {
        "No state.\n".to_owned()
    }
}

/// What initialising the stage takes, given what already stands in it.
#[derive(PartialEq, Eq, Structural, Debug, Clone, Copy)]
pub enum InitAction {
    /// The stage holds a `.terraform` directory: nothing is done.
    AlreadyInitialized,
    /// Run `terraform init`; with a temporary provider file when the stage
    /// has no `variables.tf` to name the provider.
    Initialize { with_dummy: bool },
}

/// The step that initialises the stage: skipped when `.terraform` exists,
/// else `terraform init`, with a temporary provider file exactly when
/// `variables.tf` is missing.
pub fn init_action(terraform_dir_exists: bool, variables_exists: bool) -> (a: InitAction)
    ensures
        terraform_dir_exists ==> a == InitAction::AlreadyInitialized,
        !terraform_dir_exists ==> a == (InitAction::Initialize { with_dummy: !variables_exists }),
{
    if terraform_dir_exists {
        InitAction::AlreadyInitialized
    } else {
        InitAction::Initialize { with_dummy: !variables_exists }
    }
}

/// The contents of the temporary provider file written for `terraform init`.
pub fn dummy_provider() -> (contents: String)
    ensures
        contents@ == "provider \"aws\" {}"@,
{
    "provider \"aws\" {}".to_owned()
}

} // verus!
