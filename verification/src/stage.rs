//! The stage: the Terraform files made from the lockfile and the templates of
//! the infrastructure folder, and what the stage is reported to hold.

use vstd::prelude::*;
use crate::lockfile::string_views;
use crate::order::{sort_char_seqs, sort_seqs};
use crate::text::{
    append_chars, chars_of, contains, contains_chars, contains_seq, ends_with_chars,
    ends_with_seq, replace, spec_replace, string_of, views,
};

verus! {

broadcast use vstd::string::group_string_axioms;

/// A file to write into the stage.
#[derive(Debug)]
pub struct StageFile {
    pub file_name: String,
    pub contents: String,
}

/// A stage file as its name and contents.
pub open spec fn stage_file_view(f: StageFile) -> (Seq<char>, Seq<char>) {
    (f.file_name@, f.contents@)
}

/// The files staged for the resources `names` of one service: `<name>.tf`,
/// holding the service's template with every `NAME` replaced by the name.
pub open spec fn files_for(names: Seq<Seq<char>>, template: Seq<char>) -> Seq<(Seq<char>, Seq<char>)> {
    Seq::new(
        names.len(),
        |i: int| (names[i] + ".tf"@, spec_replace(template, "NAME"@, names[i])),
    )
}

/// Appends to `out` the files of the resources `names` made from `template`.
fn push_files_for(out: &mut Vec<StageFile>, names: &Vec<String>, template: &str)
    ensures
        final(out)@.map_values(|f: StageFile| stage_file_view(f)) == old(out)@.map_values(
            |f: StageFile| stage_file_view(f),
        ) + files_for(string_views(names@), template@),
{
    proof {
        reveal_strlit("NAME");
    }
    let ghost start = old(out)@.map_values(|f: StageFile| stage_file_view(f));
    let mut i: usize = 0;
    while i < names.len()
        invariant
            i <= names@.len(),
            "NAME"@.len() > 0,
            out@.map_values(|f: StageFile| stage_file_view(f)) == start + files_for(
                string_views(names@).take(i as int),
                template@,
            ),
        decreases names@.len() - i,
    {
        let name = &names[i];
        let mut file_name = name.clone();
        file_name.append(".tf");
        let contents = replace(template, "NAME", name.as_str());
        let ghost before = out@.map_values(|f: StageFile| stage_file_view(f));
        out.push(StageFile { file_name, contents });
        assert(out@.map_values(|f: StageFile| stage_file_view(f)) =~= before.push(
            (name@ + ".tf"@, spec_replace(template@, "NAME"@, name@)),
        ));
        i = i + 1;
        assert(files_for(string_views(names@).take(i as int), template@) =~= files_for(
            string_views(names@).take(i - 1),
            template@,
        ).push((name@ + ".tf"@, spec_replace(template@, "NAME"@, name@))));
    }
    assert(string_views(names@).take(i as int) =~= string_views(names@));
}

/// The files `el imp` stages for the resources `names` of one service.
pub fn resource_files(names: &Vec<String>, template: &str) -> (files: Vec<StageFile>)
    ensures
        files@.map_values(|f: StageFile| stage_file_view(f)) == files_for(string_views(names@), template@),
{
    let mut files: Vec<StageFile> = Vec::new();
    push_files_for(&mut files, names, template);
    assert(files@.map_values(|f: StageFile| stage_file_view(f)) =~= Seq::empty() + files_for(
        string_views(names@),
        template@,
    ));
    files
}

/// The secret variables file: the template with `AK` replaced by the access
/// key, then `SK` replaced by the secret key.
pub open spec fn spec_secret_contents(template: Seq<char>, access_key: Seq<char>, secret_key: Seq<char>) -> Seq<char> {
    spec_replace(spec_replace(template, "AK"@, access_key), "SK"@, secret_key)
}

/// The secret variables file made from its template and the two keys.
pub fn secret_contents(template: &str, access_key: &str, secret_key: &str) -> (contents: String)
    ensures
        contents@ == spec_secret_contents(template@, access_key@, secret_key@),
        contents@ == spec_replace(spec_replace(template@, "AK"@, access_key@), "SK"@, secret_key@),
{
    proof {
        reveal_strlit("AK");
        reveal_strlit("SK");
    }
    let with_access = replace(template, "AK", access_key);
    replace(with_access.as_str(), "SK", secret_key)
}

/// Clearing the stage removes a path exactly when it is a file whose path
/// does not hold `terraform.tfstate`.
pub fn removed_on_clear(path: &str, is_file: bool) -> (removed: bool)
    ensures
        removed == (is_file && !contains_seq(path@, "terraform.tfstate"@)),
{
    is_file && !contains(path, "terraform.tfstate")
}

/// A directory entry name followed by a line feed, as the stage listing
/// handles it.
pub open spec fn with_lf(names: Seq<Seq<char>>) -> Seq<Seq<char>> {
    names.map_values(|n: Seq<char>| n + seq!['\n'])
}

/// An entry is listed when it names a `.tf` file other than `variables.tf`.
pub open spec fn is_listed(entry: Seq<char>) -> bool {
    ends_with_seq(entry, ".tf\n"@) && !contains_seq(entry, "variables.tf\n"@)
}

/// The listed entries, in their order.
pub open spec fn listed(entries: Seq<Seq<char>>) -> Seq<Seq<char>>
    decreases entries.len(),
{
    if entries.len() == 0 {
        Seq::empty()
    } else {
        let rest = listed(entries.drop_last());
        if is_listed(entries.last()) {
            rest.push(entries.last())
        } else {
            rest
        }
    }
}

/// All the sequences, one after the other.
pub open spec fn concat_all(ls: Seq<Seq<char>>) -> Seq<char>
    decreases ls.len(),
{
    if ls.len() == 0 {
        Seq::empty()
    } else {
        concat_all(ls.drop_last()) + ls.last()
    }
}

/// What `el get stage` shows for a stage holding the entries `names`: the
/// names of its `.tf` files but `variables.tf`, sorted, one per line; or
/// "No state." when there is none.
pub open spec fn spec_stage_listing(names: Seq<Seq<char>>) -> Seq<char> {
    let s = concat_all(sort_seqs(listed(with_lf(names))));
    if s.len() == 0 {
        "No state.\n"@
    } else {
        s
    }
}

/// What `el get stage` shows for a stage holding the entries `file_names`.
pub fn stage_listing(file_names: &Vec<String>) -> (listing: String)
    ensures
        listing@ == spec_stage_listing(string_views(file_names@)),
{
    let ghost names = string_views(file_names@);
    let tf = chars_of(".tf\n");
    let variables = chars_of("variables.tf\n");
    let mut entries: Vec<Vec<char>> = Vec::new();
    let mut i: usize = 0;
    while i < file_names.len()
        invariant
            i <= file_names@.len(),
            names == string_views(file_names@),
            tf@ == ".tf\n"@,
            variables@ == "variables.tf\n"@,
            views(entries@) == listed(with_lf(names.take(i as int))),
        decreases file_names@.len() - i,
    {
        let mut entry = chars_of(file_names[i].as_str());
        entry.push('\n');
        let keep = ends_with_chars(&entry, &tf) && !contains_chars(&entry, &variables);
        let ghost before = views(entries@);
        proof {
            let w = with_lf(names.take(i + 1));
            assert(w.drop_last() =~= with_lf(names.take(i as int)));
            assert(w.last() =~= entry@);
        }
        if keep {
            entries.push(entry);
            assert(views(entries@) =~= before.push(entry@));
        }
        i = i + 1;
    }
    assert(names.take(i as int) =~= names);
    let sorted = sort_char_seqs(entries);
    let mut out: Vec<char> = Vec::new();
    let mut k: usize = 0;
    while k < sorted.len()
        invariant
            k <= sorted@.len(),
            out@ == concat_all(views(sorted@).take(k as int)),
        decreases sorted@.len() - k,
    {
        append_chars(&mut out, &sorted[k]);
        proof {
            let t = views(sorted@).take(k + 1);
            assert(t.drop_last() =~= views(sorted@).take(k as int));
            assert(t.last() == sorted@[k as int]@);
        }
        k = k + 1;
    }
    assert(views(sorted@).take(k as int) =~= views(sorted@));
    if out.len() == 0 {
        "No state.\n".to_owned()
    } else {
        string_of(out.as_slice())
    }
}

} // verus!
