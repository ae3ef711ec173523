//! Properties that hold across the library's operations.

use vstd::prelude::*;
use crate::infra::{Inf, Location, Opti, ascii_lower, eq_ignore_ascii_case};
use crate::lockfile::{LockfileView, name_prefix, resource_name, resource_names, spec_display, spec_set};
use crate::order::{lemma_sort_multiset, lemma_sort_sorted, sort_seqs, sorted};
use crate::paths::{separator, spec_push_path, spec_work_dir};
use vstd::utf8::{decode_utf8, encode_utf8, is_ascii_chars};
use crate::stage::{concat_all, files_for, is_listed, listed, spec_stage_listing, with_lf};
use crate::terraform::{spec_lines, spec_plan_changes};
use crate::stage::spec_secret_contents;
use crate::text::{join_lines, lemma_join_lines_nonempty, contains_seq, decimal, digit_char, ends_with_seq, occurs_at, spec_replace};

verus! {

proof fn lemma_decimal_len(n: nat)
    ensures
        decimal(n).len() >= 1,
        n >= 10 ==> decimal(n).len() >= 2,
    decreases n,
{
    if n >= 10 {
        lemma_decimal_len(n / 10);
    }
}

/// Different numbers have different decimal notations.
pub proof fn law_decimal_injective(a: nat, b: nat)
    requires
        decimal(a) == decimal(b),
    ensures
        a == b,
    decreases a,
{
    lemma_decimal_len(a);
    lemma_decimal_len(b);
    if a < 10 && b < 10 {
        assert(decimal(a)[0] == digit_char(a));
        assert(decimal(b)[0] == digit_char(b));
    } else if a >= 10 && b >= 10 {
        let da = decimal(a);
        let db = decimal(b);
        assert(da.last() == digit_char(a % 10));
        assert(db.last() == digit_char(b % 10));
        assert(da.drop_last() =~= decimal(a / 10));
        assert(db.drop_last() =~= decimal(b / 10));
        law_decimal_injective(a / 10, b / 10);
    }
}

proof fn lemma_cancel_prefix(p: Seq<char>, x: Seq<char>, y: Seq<char>)
    requires
        p + x == p + y,
    ensures
        x == y,
{
    assert(x =~= (p + x).skip(p.len() as int));
    assert(y =~= (p + y).skip(p.len() as int));
}

/// Resource names never repeat: two names are equal only for the same
/// service and the same number.
pub proof fn law_resource_names_unique(i1: Inf, a: nat, i2: Inf, b: nat)
    requires
        resource_name(i1, a) == resource_name(i2, b),
    ensures
        i1 == i2,
        a == b,
{
    reveal_strlit("elasticlab-dynamodb-");
    reveal_strlit("elasticlab-emr-");
    reveal_strlit("elasticlab-s3-");
    if i1 != i2 {
        assert(resource_name(i1, a)[11] == name_prefix(i1)[11]);
        assert(resource_name(i2, b)[11] == name_prefix(i2)[11]);
    } else {
        lemma_cancel_prefix(name_prefix(i1), decimal(a), decimal(b));
        law_decimal_injective(a, b);
    }
}

/// `el set` gives each resource of a service its own name.
pub proof fn law_set_names_distinct(inf: Inf, n: nat)
    ensures
        resource_names(inf, n).no_duplicates(),
{
    assert forall|i: int, j: int|
        0 <= i < resource_names(inf, n).len() && 0 <= j < resource_names(inf, n).len() && i
            != j implies resource_names(inf, n)[i] != resource_names(inf, n)[j] by {
        if resource_names(inf, n)[i] == resource_names(inf, n)[j] {
            law_resource_names_unique(inf, (i + 1) as nat, inf, (j + 1) as nat);
        }
    }
}

/// After `el set <inf> <n>` the service holds `n` resources, the `i`-th named
/// with number `i + 1`, and the other services are as they were.
pub proof fn law_set_count(l: LockfileView, inf: Inf, other: Inf, n: nat)
    ensures
        spec_set(l, inf, n).entries(inf).len() == n,
        forall|i: int| 0 <= i < n ==> #[trigger] spec_set(l, inf, n).entries(inf)[i] == resource_name(inf, (i + 1) as nat),
        other != inf ==> spec_set(l, inf, n).entries(other) == l.entries(other),
{
}

/// A second `el set` of the same service overrides the first.
pub proof fn law_set_last_wins(l: LockfileView, inf: Inf, a: nat, b: nat)
    ensures
        spec_set(spec_set(l, inf, a), inf, b) == spec_set(l, inf, b),
{
}

/// Setting two different services gives the same lockfile in either order.
pub proof fn law_set_commutes(l: LockfileView, i1: Inf, a: nat, i2: Inf, b: nat)
    requires
        i1 != i2,
    ensures
        spec_set(spec_set(l, i1, a), i2, b) == spec_set(spec_set(l, i2, b), i1, a),
{
}

/// The lockfile listing reads "No state." exactly when no resource is planned.
pub proof fn law_display_no_state(l: LockfileView)
    ensures
        l.is_empty() <==> spec_display(l) == "No state.\n"@,
{
    reveal_strlit("No state.\n");
    reveal_strlit("DynamoDB Tables");
    reveal_strlit("EMR Clusters");
    reveal_strlit("S3 Buckets");
    if !l.is_empty() {
        let d = spec_display(l);
        assert(d[0] != 'N');
    }
}

/// A service's name parses back to that service.
pub proof fn law_inf_parse_name(x: Inf)
    ensures
        Inf::spec_parse(x.spec_name()) == Some(x),
{
    reveal_strlit("DynamoDB");
    reveal_strlit("EMR");
    reveal_strlit("S3");
}

/// An option's name parses back to that option.
pub proof fn law_opti_parse_name(x: Opti)
    ensures
        Opti::spec_parse(x.spec_name()) == Some(x),
{
    reveal_strlit("ReadCapacity");
    reveal_strlit("WriteCapacity");
}

/// A location's name parses back to that location.
pub proof fn law_location_parse_name(x: Location)
    ensures
        Location::spec_parse(x.spec_name()) == Some(x),
{
    reveal_strlit("Aws");
    reveal_strlit("Lock");
    reveal_strlit("Stage");
}

/// Parsing does not see the case of ASCII letters.
pub proof fn law_parse_ignores_case(s: Seq<char>, t: Seq<char>)
    requires
        eq_ignore_ascii_case(s, t),
    ensures
        Inf::spec_parse(s) == Inf::spec_parse(t),
        Opti::spec_parse(s) == Opti::spec_parse(t),
        Location::spec_parse(s) == Location::spec_parse(t),
{
}

/// Replacing a pattern that does not occur leaves the text as it is: a
/// template without `NAME` is staged unchanged.
pub proof fn law_replace_absent(s: Seq<char>, pat: Seq<char>, rep: Seq<char>)
    requires
        pat.len() > 0,
        !contains_seq(s, pat),
    ensures
        spec_replace(s, pat, rep) == s,
    decreases s.len(),
{
    if s.len() > 0 {
        assert(!occurs_at(s, 0, pat));
        assert forall|i: int| !occurs_at(s.skip(1), i, pat) by {
            if occurs_at(s.skip(1), i, pat) {
                assert(s.skip(1).subrange(i, i + pat.len()) =~= s.subrange(i + 1, i + 1 + pat.len()));
                assert(occurs_at(s, i + 1, pat));
            }
        }
        law_replace_absent(s.skip(1), pat, rep);
        assert(s =~= seq![s[0]] + s.skip(1));
    }
}

/// `el imp` stages one file per resource, named after the resource with
/// `.tf` appended, with `NAME` in the template replaced by the resource name.
pub proof fn law_resource_files(names: Seq<Seq<char>>, template: Seq<char>)
    ensures
        files_for(names, template).len() == names.len(),
        forall|i: int|
            0 <= i < names.len() ==> (#[trigger] files_for(names, template)[i]) == (names[i] + ".tf"@, spec_replace(template, "NAME"@, names[i])),
{
}

/// After `el set <inf> <n>`, `el imp` stages the files `elasticlab-<inf>-1.tf`
/// to `elasticlab-<inf>-<n>.tf` for that service.
pub proof fn law_set_then_stage(l: LockfileView, inf: Inf, n: nat, template: Seq<char>)
    ensures
        files_for(spec_set(l, inf, n).entries(inf), template).len() == n,
        forall|i: int|
            0 <= i < n ==> (#[trigger] files_for(spec_set(l, inf, n).entries(inf), template)[i]).0
                == resource_name(inf, (i + 1) as nat) + ".tf"@,
{
}

/// What `el get stage` lists is sorted and holds each listed entry as often
/// as the stage does.
pub proof fn law_stage_listing_sorted(names: Seq<Seq<char>>)
    ensures
        sorted(sort_seqs(listed(with_lf(names)))),
        sort_seqs(listed(with_lf(names))).to_multiset() =~= listed(with_lf(names)).to_multiset(),
{
    lemma_sort_sorted(listed(with_lf(names)));
    lemma_sort_multiset(listed(with_lf(names)));
}

proof fn lemma_listed_all(entries: Seq<Seq<char>>)
    ensures
        forall|i: int| 0 <= i < listed(entries).len() ==> is_listed(#[trigger] listed(entries)[i]),
    decreases entries.len(),
{
    if entries.len() > 0 {
        lemma_listed_all(entries.drop_last());
        let rest = listed(entries.drop_last());
        if is_listed(entries.last()) {
            assert forall|i: int| 0 <= i < listed(entries).len() implies is_listed(
                #[trigger] listed(entries)[i],
            ) by {
                if i < rest.len() {
                    assert(listed(entries)[i] == rest[i]);
                }
            }
        }
    }
}

/// `el get stage` answers "No state." exactly when the stage holds no `.tf`
/// file other than `variables.tf`.
pub proof fn law_stage_listing_no_state(names: Seq<Seq<char>>)
    ensures
        spec_stage_listing(names) == "No state.\n"@ <==> listed(with_lf(names)).len() == 0,
{
    broadcast use vstd::seq_lib::group_to_multiset_ensures;

    reveal_strlit("No state.\n");
    reveal_strlit(".tf\n");
    let l = listed(with_lf(names));
    let s = sort_seqs(l);
    lemma_sort_multiset(l);
    if l.len() == 0 {
        assert(s.to_multiset().len() == 0);
        assert(s.len() == 0);
    } else {
        assert(s.len() == l.len()) by {
            assert(s.to_multiset().len() == s.len());
            assert(l.to_multiset().len() == l.len());
        }
        let x = s.last();
        assert(s.contains(x)) by {
            assert(s[s.len() - 1] == x);
        }
        assert(s.to_multiset().count(x) > 0);
        assert(l.contains(x));
        lemma_listed_all(with_lf(names));
        let k = choose|k: int| 0 <= k < l.len() && l[k] == x;
        assert(is_listed(l[k]));
        assert(ends_with_seq(x, ".tf\n"@));
        let c = concat_all(s);
        assert(c == concat_all(s.drop_last()) + x);
        assert(x.len() >= 4);
        assert(x[x.len() - 2] == x.subrange(x.len() - 4, x.len() as int)[2]);
        assert(c[c.len() - 2] == x[x.len() - 2]);
        assert(c[c.len() - 2] == 'f');
        assert(spec_stage_listing(names) == c);
        if c == "No state.\n"@ {
            assert(c[c.len() - 2] == '.');
        }
    }
}

proof fn lemma_decimal_digits(n: nat)
    ensures
        forall|i: int| 0 <= i < decimal(n).len() ==> '0' <= #[trigger] decimal(n)[i] <= '9',
    decreases n,
{
    if n >= 10 {
        lemma_decimal_digits(n / 10);
        let d = decimal(n);
        assert forall|i: int| 0 <= i < d.len() implies '0' <= #[trigger] d[i] <= '9' by {
            if i < d.len() - 1 {
                assert(d[i] == decimal(n / 10)[i]);
            }
        }
    }
}

proof fn lemma_with_lf_add(a: Seq<Seq<char>>, b: Seq<Seq<char>>)
    ensures
        with_lf(a + b) =~= with_lf(a) + with_lf(b),
{
}

proof fn lemma_listed_add(a: Seq<Seq<char>>, b: Seq<Seq<char>>)
    ensures
        listed(a + b) == listed(a) + listed(b),
    decreases b.len(),
{
    if b.len() == 0 {
        assert(a + b =~= a);
        assert(listed(a) + listed(b) =~= listed(a));
    } else {
        assert((a + b).drop_last() =~= a + b.drop_last());
        assert((a + b).last() == b.last());
        lemma_listed_add(a, b.drop_last());
        if is_listed(b.last()) {
            assert(listed(a + b) =~= listed(a) + listed(b));
        }
    }
}

proof fn lemma_listed_all_kept(entries: Seq<Seq<char>>)
    requires
        forall|i: int| 0 <= i < entries.len() ==> is_listed(#[trigger] entries[i]),
    ensures
        listed(entries) == entries,
    decreases entries.len(),
{
    if entries.len() > 0 {
        lemma_listed_all_kept(entries.drop_last());
        assert(entries.drop_last().push(entries.last()) =~= entries);
    }
}

/// The stage entry of a resource file is listed by `el get stage`.
proof fn lemma_resource_entry_listed(inf: Inf, i: nat)
    ensures
        is_listed(resource_name(inf, i) + ".tf"@ + seq!['\n']),
{
    reveal_strlit("elasticlab-dynamodb-");
    reveal_strlit("elasticlab-emr-");
    reveal_strlit("elasticlab-s3-");
    reveal_strlit(".tf");
    reveal_strlit(".tf\n");
    reveal_strlit("variables.tf\n");
    lemma_decimal_digits(i);
    lemma_decimal_len(i);
    let p = name_prefix(inf);
    let d = decimal(i);
    let e = resource_name(inf, i) + ".tf"@ + seq!['\n'];
    assert(e =~= p + d + seq!['.', 't', 'f', '\n']);
    assert(e.subrange(e.len() - 4, e.len() as int) =~= ".tf\n"@);
    assert forall|k: int| 0 <= k < e.len() - 1 implies e[k] != '\n' by {
        if k < p.len() {
            assert(e[k] == p[k]);
        } else if k < p.len() + d.len() {
            assert(e[k] == d[k - p.len()]);
        }
    }
    let v = "variables.tf\n"@;
    assert forall|k: int| !occurs_at(e, k, v) by {
        if occurs_at(e, k, v) {
            assert(e.subrange(k, k + v.len())[12] == v[12]);
            assert(e[k + 12] == '\n');
            assert(k + 12 == e.len() - 1);
            assert(e.subrange(k, k + v.len())[8] == v[8]);
            assert(e[e.len() - 5] == d[d.len() - 1]);
            assert(e[k + 8] == 's');
        }
    }
}

/// After `el set <inf> <n>` on a lockfile without resources and `el imp`,
/// the stage holds `variables.tf` and the files of the `n` resources, and
/// `el get stage` lists exactly those resource files, sorted, or "No state."
/// when `n` is 0.
pub proof fn law_set_import_listing(inf: Inf, n: nat, template: Seq<char>)
    ensures
        ({
            let files = files_for(spec_set(LockfileView::empty(), inf, n).entries(inf), template);
            let names = files.map_values(|f: (Seq<char>, Seq<char>)| f.0);
            spec_stage_listing(seq!["variables.tf"@] + names) == if n == 0 {
                "No state.\n"@
            } else {
                concat_all(sort_seqs(with_lf(names)))
            }
        }),
{
    reveal_strlit("variables.tf");
    reveal_strlit("variables.tf\n");
    let files = files_for(spec_set(LockfileView::empty(), inf, n).entries(inf), template);
    let names = files.map_values(|f: (Seq<char>, Seq<char>)| f.0);
    let all = seq!["variables.tf"@] + names;
    lemma_with_lf_add(seq!["variables.tf"@], names);
    lemma_listed_add(with_lf(seq!["variables.tf"@]), with_lf(names));
    let v = with_lf(seq!["variables.tf"@])[0];
    assert(v =~= "variables.tf\n"@);
    assert(v.subrange(0, v.len() as int) =~= v);
    assert(occurs_at(v, 0, "variables.tf\n"@));
    assert(!is_listed(v));
    assert(listed(with_lf(seq!["variables.tf"@])) =~= Seq::<Seq<char>>::empty()) by {
        assert(with_lf(seq!["variables.tf"@]).drop_last() =~= Seq::<Seq<char>>::empty());
        assert(with_lf(seq!["variables.tf"@]).last() == v);
        assert(listed(Seq::<Seq<char>>::empty()) =~= Seq::<Seq<char>>::empty());
    }
    assert forall|i: int| 0 <= i < with_lf(names).len() implies is_listed(#[trigger] with_lf(names)[i]) by {
        assert(with_lf(names)[i] == resource_name(inf, (i + 1) as nat) + ".tf"@ + seq!['\n']);
        lemma_resource_entry_listed(inf, (i + 1) as nat);
    }
    lemma_listed_all_kept(with_lf(names));
    assert(listed(with_lf(all)) =~= with_lf(names));
    law_stage_listing_no_state(all);
}

/// A pattern occurrence in `x + y` that starts inside `x` ends inside `x`.
pub open spec fn no_straddle(x: Seq<char>, y: Seq<char>, pat: Seq<char>) -> bool {
    forall|k: int| 0 <= k < x.len() && #[trigger] occurs_at(x + y, k, pat) ==> k + pat.len() <= x.len()
}

proof fn lemma_occurs_shift(x: Seq<char>, s: Seq<char>, m: int, k: int, pat: Seq<char>)
    requires
        0 <= m <= s.len(),
        x == s.skip(m),
        0 <= k,
        occurs_at(x, k, pat),
    ensures
        occurs_at(s, k + m, pat),
{
    assert(x.subrange(k, k + pat.len()) =~= s.subrange(k + m, k + m + pat.len()));
}

/// Replacing in `x + y` replaces in `x` and in `y` apart, when no occurrence
/// of the pattern spans the two.
pub proof fn lemma_replace_concat(x: Seq<char>, y: Seq<char>, pat: Seq<char>, rep: Seq<char>)
    requires
        pat.len() > 0,
        no_straddle(x, y, pat),
    ensures
        spec_replace(x + y, pat, rep) == spec_replace(x, pat, rep) + spec_replace(y, pat, rep),
    decreases x.len(),
{
    let s = x + y;
    let n = pat.len() as int;
    if x.len() == 0 {
        assert(s =~= y);
        assert(spec_replace(x, pat, rep) + spec_replace(y, pat, rep) =~= spec_replace(y, pat, rep));
    } else if occurs_at(s, 0, pat) {
        assert(n <= x.len());
        assert(x.subrange(0, n) =~= s.subrange(0, n));
        assert(occurs_at(x, 0, pat));
        let x2 = x.skip(n);
        assert(s.skip(n) =~= x2 + y);
        assert forall|k: int| 0 <= k < x2.len() && #[trigger] occurs_at(x2 + y, k, pat) implies k + n
            <= x2.len() by {
            lemma_occurs_shift(x2 + y, s, n, k, pat);
        }
        lemma_replace_concat(x2, y, pat, rep);
        assert(spec_replace(s, pat, rep) == rep + spec_replace(s.skip(n), pat, rep));
        assert(spec_replace(x, pat, rep) == rep + spec_replace(x2, pat, rep));
        assert(spec_replace(s, pat, rep) =~= spec_replace(x, pat, rep) + spec_replace(y, pat, rep));
    } else {
        if occurs_at(x, 0, pat) {
            assert(s.subrange(0, n) =~= x.subrange(0, n));
        }
        let x2 = x.skip(1);
        assert(s.skip(1) =~= x2 + y);
        assert forall|k: int| 0 <= k < x2.len() && #[trigger] occurs_at(x2 + y, k, pat) implies k + n
            <= x2.len() by {
            lemma_occurs_shift(x2 + y, s, 1, k, pat);
        }
        lemma_replace_concat(x2, y, pat, rep);
        assert(s[0] == x[0]);
        assert(spec_replace(s, pat, rep) == seq![s[0]] + spec_replace(s.skip(1), pat, rep));
        assert(spec_replace(x, pat, rep) == seq![x[0]] + spec_replace(x2, pat, rep));
        assert(spec_replace(s, pat, rep) =~= spec_replace(x, pat, rep) + spec_replace(y, pat, rep));
    }
}

proof fn lemma_no_straddle_pair(x: Seq<char>, y: Seq<char>, pat: Seq<char>)
    requires
        pat.len() == 2,
        x.len() == 0 || y.len() == 0 || x.last() != pat[0] || y[0] != pat[1],
    ensures
        no_straddle(x, y, pat),
{
    assert forall|k: int| 0 <= k < x.len() && #[trigger] occurs_at(x + y, k, pat) implies k + pat.len()
        <= x.len() by {
        if k + 2 > x.len() {
            let w = (x + y).subrange(k, k + 2);
            assert(w[0] == (x + y)[k] && w[1] == (x + y)[k + 1]);
            assert(k == x.len() - 1);
            assert((x + y)[k] == x.last());
            assert((x + y)[k + 1] == y[0]);
        }
    }
}

proof fn lemma_replace_whole(pat: Seq<char>, rest: Seq<char>, rep: Seq<char>)
    requires
        pat.len() > 0,
    ensures
        spec_replace(pat + rest, pat, rep) == rep + spec_replace(rest, pat, rep),
{
    let s = pat + rest;
    assert(s.subrange(0, pat.len() as int) =~= pat);
    assert(s.skip(pat.len() as int) =~= rest);
}

/// `el key` writes the two keys where the template says `AK` and `SK`, each
/// exactly once and as given: the access key is not searched again for `AK`,
/// so whatever it holds (but `SK`) stands verbatim in the file.
pub proof fn law_secret_contents_fills_keys(
    p: Seq<char>,
    q: Seq<char>,
    r: Seq<char>,
    ak: Seq<char>,
    sk: Seq<char>,
)
    requires
        !contains_seq(p, "AK"@) && !contains_seq(p, "SK"@),
        !contains_seq(q, "AK"@) && !contains_seq(q, "SK"@),
        !contains_seq(r, "AK"@) && !contains_seq(r, "SK"@),
        !contains_seq(ak, "SK"@),
        p.len() == 0 || (p.last() != 'A' && p.last() != 'S'),
        q.len() == 0 || (q.last() != 'A' && q.last() != 'S' && q[0] != 'K'),
    ensures
        spec_secret_contents(p + "AK"@ + q + "SK"@ + r, ak, sk) == p + ak + q + sk + r,
{
    reveal_strlit("AK");
    reveal_strlit("SK");
    let a = "AK"@;
    let b = "SK"@;
    // The first pass: `AK` is replaced once, right after `p`.
    assert(!contains_seq(b, a)) by {
        assert forall|k: int| !occurs_at(b, k, a) by {
            if occurs_at(b, k, a) {
                assert(b.subrange(k, k + 2)[0] == a[0]);
            }
        }
    }
    lemma_no_straddle_pair(b, r, a);
    lemma_replace_concat(b, r, a, ak);
    law_replace_absent(b, a, ak);
    law_replace_absent(r, a, ak);
    lemma_no_straddle_pair(q, b + r, a);
    lemma_replace_concat(q, b + r, a, ak);
    law_replace_absent(q, a, ak);
    lemma_replace_whole(a, q + (b + r), ak);
    lemma_no_straddle_pair(p, a + (q + (b + r)), a);
    lemma_replace_concat(p, a + (q + (b + r)), a, ak);
    law_replace_absent(p, a, ak);
    assert(p + a + q + b + r =~= p + (a + (q + (b + r))));
    let first = p + (ak + (q + (b + r)));
    assert(spec_replace(p + a + q + b + r, a, ak) == first);
    // The second pass: `SK` is replaced once, right after `q`.
    lemma_replace_whole(b, r, sk);
    law_replace_absent(r, b, sk);
    lemma_no_straddle_pair(q, b + r, b);
    lemma_replace_concat(q, b + r, b, sk);
    law_replace_absent(q, b, sk);
    if q.len() > 0 {
        assert((q + (b + r))[0] == q[0]);
    } else {
        assert((q + (b + r))[0] == b[0]);
    }
    lemma_no_straddle_pair(ak, q + (b + r), b);
    lemma_replace_concat(ak, q + (b + r), b, sk);
    law_replace_absent(ak, b, sk);
    lemma_no_straddle_pair(p, ak + (q + (b + r)), b);
    lemma_replace_concat(p, ak + (q + (b + r)), b, sk);
    law_replace_absent(p, b, sk);
    assert(spec_replace(first, b, sk) =~= p + ak + q + sk + r);
}

/// What `el go` shows of a plan that does not say "No changes.": with six
/// lines or more, all its lines (as `str::lines` splits them) but the last
/// six, each ended by a line feed, which is not empty when there are more
/// than six; with fewer, the whole output.
pub proof fn law_plan_shows_all_but_last_six(out: Seq<char>)
    requires
        !contains_seq(out, "No changes."@),
    ensures
        spec_lines(out).len() >= 6 ==> spec_plan_changes(out) == join_lines(
            spec_lines(out).take(spec_lines(out).len() - 6),
        ),
        spec_lines(out).len() > 6 ==> spec_plan_changes(out).len() > 0,
        spec_lines(out).len() < 6 ==> spec_plan_changes(out) == out,
{
    let ls = spec_lines(out);
    if ls.len() > 6 {
        lemma_join_lines_nonempty(ls.take(ls.len() - 6));
    }
}

/// Case folding turns each capital ASCII letter into its small letter (the
/// code point 32 higher) and keeps every other character.
pub proof fn law_ascii_lower_letters(c: char)
    ensures
        'A' <= c <= 'Z' ==> ascii_lower(c) as int == c as int + 32,
        'A' <= c <= 'Z' ==> 'a' <= ascii_lower(c) <= 'z',
        !('A' <= c <= 'Z') ==> ascii_lower(c) == c,
{
}

/// `d` is `c` or `c` with its ASCII letter case changed.
pub open spec fn same_up_to_ascii_case(c: char, d: char) -> bool {
    ||| c == d
    ||| 'A' <= c <= 'Z' && d as int == c as int + 32
    ||| 'a' <= c <= 'z' && d as int == c as int - 32
}

/// `t` is `s` with any of its ASCII letters changed in case.
pub open spec fn case_variant(s: Seq<char>, t: Seq<char>) -> bool {
    s.len() == t.len() && forall|i: int| 0 <= i < s.len() ==> same_up_to_ascii_case(s[i], t[i])
}

proof fn lemma_case_variant_eq_ignore(s: Seq<char>, t: Seq<char>)
    requires
        case_variant(s, t),
    ensures
        eq_ignore_ascii_case(t, s),
{
    assert forall|i: int| 0 <= i < t.len() implies ascii_lower(t[i]) == ascii_lower(s[i]) by {
        let c = s[i];
        let d = t[i];
        if 'A' <= c <= 'Z' && d as int == c as int + 32 {
            assert(ascii_lower(c) as int == d as int);
        } else if 'a' <= c <= 'z' && d as int == c as int - 32 {
            assert(ascii_lower(d) as int == c as int);
        }
    }
}

/// A name typed in any mix of ASCII upper and lower case names the same
/// service, option or location.
pub proof fn law_parse_case_variants(t: Seq<char>)
    ensures
        forall|x: Inf| case_variant(x.spec_name(), t) ==> Inf::spec_parse(t) == Some(x),
        forall|x: Opti| case_variant(x.spec_name(), t) ==> Opti::spec_parse(t) == Some(x),
        forall|x: Location| case_variant(x.spec_name(), t) ==> Location::spec_parse(t) == Some(x),
{
    assert forall|x: Inf| case_variant(x.spec_name(), t) implies Inf::spec_parse(t) == Some(x) by {
        lemma_case_variant_eq_ignore(x.spec_name(), t);
        law_parse_ignores_case(t, x.spec_name());
        law_inf_parse_name(x);
    }
    assert forall|x: Opti| case_variant(x.spec_name(), t) implies Opti::spec_parse(t) == Some(x) by {
        lemma_case_variant_eq_ignore(x.spec_name(), t);
        law_parse_ignores_case(t, x.spec_name());
        law_opti_parse_name(x);
    }
    assert forall|x: Location| case_variant(x.spec_name(), t) implies Location::spec_parse(t) == Some(
        x,
    ) by {
        lemma_case_variant_eq_ignore(x.spec_name(), t);
        law_parse_ignores_case(t, x.spec_name());
        law_location_parse_name(x);
    }
}

/// The work directory is the home directory with `.elasticlab` pushed once:
/// a separator and the name appended, or only the name after a final `/`.
pub proof fn law_work_dir_pushed_once(h: Seq<u8>)
    requires
        h.len() > 0,
    ensures
        h.last() != separator() ==> spec_work_dir(h) == h + seq![separator()] + encode_utf8(".elasticlab"@),
        h.last() == separator() ==> spec_work_dir(h) == h + encode_utf8(".elasticlab"@),
        spec_work_dir(h).len() == h.len() + 11 + (if h.last() == separator() { 0int } else { 1int }),
{
    broadcast use vstd::utf8::is_ascii_chars_encode_utf8;

    reveal_strlit(".elasticlab");
    let e = ".elasticlab"@;
    assert(is_ascii_chars(e));
    assert(e[0] as u8 == encode_utf8(e)[0]);
}

/// A plan that reports "No changes." is not applied: nothing is shown.
pub proof fn law_plan_no_changes(out: Seq<char>)
    requires
        contains_seq(out, "No changes."@),
    ensures
        spec_plan_changes(out).len() == 0,
{
}

proof fn lemma_push_cancel(w: Seq<u8>, a: Seq<u8>, b: Seq<u8>)
    requires
        a.len() > 0 && a[0] != separator(),
        b.len() > 0 && b[0] != separator(),
        spec_push_path(w, a) == spec_push_path(w, b),
    ensures
        a == b,
{
    if w.len() > 0 && w.last() != separator() {
        assert(spec_push_path(w, a) =~= (w + seq![separator()]) + a);
        assert(spec_push_path(w, b) =~= (w + seq![separator()]) + b);
        lemma_cancel_prefix_bytes(w + seq![separator()], a, b);
    } else {
        lemma_cancel_prefix_bytes(w, a, b);
    }
}

proof fn lemma_cancel_prefix_bytes(p: Seq<u8>, x: Seq<u8>, y: Seq<u8>)
    requires
        p + x == p + y,
    ensures
        x == y,
{
    assert(x =~= (p + x).skip(p.len() as int));
    assert(y =~= (p + y).skip(p.len() as int));
}

/// The infrastructure folder, the lockfile, the secret file and the stage
/// never share a path.
pub proof fn law_work_entries_distinct(w: Seq<u8>)
    ensures
        spec_push_path(w, encode_utf8("infra"@)) != spec_push_path(w, encode_utf8("lock"@)),
        spec_push_path(w, encode_utf8("infra"@)) != spec_push_path(w, encode_utf8("secret"@)),
        spec_push_path(w, encode_utf8("infra"@)) != spec_push_path(w, encode_utf8("stage"@)),
        spec_push_path(w, encode_utf8("lock"@)) != spec_push_path(w, encode_utf8("secret"@)),
        spec_push_path(w, encode_utf8("lock"@)) != spec_push_path(w, encode_utf8("stage"@)),
        spec_push_path(w, encode_utf8("secret"@)) != spec_push_path(w, encode_utf8("stage"@)),
{
    broadcast use vstd::utf8::is_ascii_chars_encode_utf8, vstd::utf8::encode_utf8_decode_utf8;

    reveal_strlit("infra");
    reveal_strlit("lock");
    reveal_strlit("secret");
    reveal_strlit("stage");
    let names = seq!["infra"@, "lock"@, "secret"@, "stage"@];
    assert(names[0] == "infra"@ && names[1] == "lock"@ && names[2] == "secret"@ && names[3] == "stage"@);
    assert forall|i: int| 0 <= i < 4 implies is_ascii_chars(#[trigger] names[i]) && names[i].len() > 0
        && encode_utf8(names[i])[0] != separator() by {
        assert(is_ascii_chars(names[i]));
        assert(names[i][0] as u8 == encode_utf8(names[i])[0]);
    }
    assert forall|i: int, j: int| 0 <= i < j < 4 implies spec_push_path(w, encode_utf8(names[i]))
        != spec_push_path(w, encode_utf8(names[j])) by {
        if spec_push_path(w, encode_utf8(names[i])) == spec_push_path(w, encode_utf8(names[j])) {
            lemma_push_cancel(w, encode_utf8(names[i]), encode_utf8(names[j]));
            assert(decode_utf8(encode_utf8(names[i])) == names[i]);
            assert(decode_utf8(encode_utf8(names[j])) == names[j]);
            assert(names[i][0] != names[j][0] || names[i].len() != names[j].len());
        }
    }
}

} // verus!
