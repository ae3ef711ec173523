//! Where the tool keeps its files: a work directory `.elasticlab` in the
//! user's home, holding `infra`, `lock`, `secret` and `stage`.
//!
//! Paths are kept as their raw bytes (the platform's encoding of the path),
//! so a home directory that is not valid UTF-8 is used as it is.

use vstd::prelude::*;
use vstd::utf8::encode_utf8;

verus! {

broadcast use vstd::string::group_string_axioms;

/// The user's home directory, as the raw bytes of the path.
/// Trusted: calls `dirs::home_dir`, which reads `$HOME` (or the password
/// database) and so depends on the environment: nothing ties the result to
/// any argument. Its source returns `None` rather than an empty path; the path
/// is turned into its bytes by `OsString::into_encoded_bytes`, which keeps
/// every byte, so the result is non-empty.
#[verifier::external_body]
fn home_dir() -> (home: Option<Vec<u8>>)
    ensures
        home matches Some(h) ==> h@.len() > 0,
{
    match dirs::home_dir() {
        Some(p) => Some(p.into_os_string().into_encoded_bytes()),
        None => None,
    }
}

/// The path separator `/`.
pub open spec fn separator() -> u8 {
    47u8
}

/// `comp` pushed onto the path `base` as `PathBuf::push` does on Unix: an
/// absolute `comp` replaces `base`; otherwise a separator is put between them
/// unless `base` is empty or already ends with one.
pub open spec fn spec_push_path(base: Seq<u8>, comp: Seq<u8>) -> Seq<u8> {
    if comp.len() > 0 && comp[0] == separator() {
        comp
    } else if base.len() > 0 && base.last() != separator() {
        base + seq![separator()] + comp
    } else {
        base + comp
    }
}

/// The work directory `.elasticlab` inside the home directory `home`.
pub open spec fn spec_work_dir(home: Seq<u8>) -> Seq<u8> {
    spec_push_path(home, encode_utf8(".elasticlab"@))
}

fn extend_bytes(out: &mut Vec<u8>, src: &[u8])
    ensures
        final(out)@ == old(out)@ + src@,
{
    let mut j: usize = 0;
    while j < src.len()
        invariant
            j <= src@.len(),
            out@ == old(out)@ + src@.subrange(0, j as int),
        decreases src@.len() - j,
    {
        out.push(src[j]);
        j = j + 1;
        assert(out@ =~= old(out)@ + src@.subrange(0, j as int));
    }
    assert(src@.subrange(0, src@.len() as int) =~= src@);
}

/// `comp` pushed onto the path `base`.
pub fn push_path(base: &[u8], comp: &[u8]) -> (path: Vec<u8>)
    ensures
        path@ == spec_push_path(base@, comp@),
{
    let mut path: Vec<u8> = Vec::new();
    if comp.len() > 0 && comp[0] == 47u8 {
        extend_bytes(&mut path, comp);
        assert(path@ =~= comp@);
        return path;
    }
    extend_bytes(&mut path, base);
    if base.len() > 0 && base[base.len() - 1] != 47u8 {
        path.push(47u8);
    }
    extend_bytes(&mut path, comp);
    assert(path@ =~= spec_push_path(base@, comp@));
    path
}

/// The work directory inside the home directory `home`.
pub fn work_dir_from_home(home: &[u8]) -> (path: Vec<u8>)
    ensures
        path@ == spec_work_dir(home@),
{
    push_path(home, ".elasticlab".as_bytes())
}

/// The work directory inside the user's home directory, or `None` when the
/// home directory cannot be found.
pub fn work_dir_path() -> (path: Option<Vec<u8>>)
    ensures
        path matches Some(p) ==> exists|h: Seq<u8>| h.len() > 0 && p@ == spec_work_dir(h),
{
    match home_dir() {
        Some(h) => Some(work_dir_from_home(h.as_slice())),
        None => None,
    }
}

/// The entry `s` of the work directory `work_dir`.
pub fn dir_path(work_dir: &[u8], s: &str) -> (path: Vec<u8>)
    ensures
        path@ == spec_push_path(work_dir@, encode_utf8(s@)),
{
    push_path(work_dir, s.as_bytes())
}

/// The infrastructure folder, which holds the templates.
pub fn infra_dir_path(work_dir: &[u8]) -> (path: Vec<u8>)
    ensures
        path@ == spec_push_path(work_dir@, encode_utf8("infra"@)),
{
    dir_path(work_dir, "infra")
}

/// The lockfile.
pub fn lock_file_path(work_dir: &[u8]) -> (path: Vec<u8>)
    ensures
        path@ == spec_push_path(work_dir@, encode_utf8("lock"@)),
{
    dir_path(work_dir, "lock")
}

/// The file that holds the secret variables.
pub fn secret_file_path(work_dir: &[u8]) -> (path: Vec<u8>)
    ensures
        path@ == spec_push_path(work_dir@, encode_utf8("secret"@)),
{
    dir_path(work_dir, "secret")
}

/// The stage directory, where Terraform runs.
pub fn stage_dir_path(work_dir: &[u8]) -> (path: Vec<u8>)
    ensures
        path@ == spec_push_path(work_dir@, encode_utf8("stage"@)),
{
    dir_path(work_dir, "stage")
}

} // verus!
