//! The lockfile: the planned infrastructure, as lists of resource names.

use vstd::prelude::*;
use vstd::string::{StrSliceExecFns, StringExecFns};
use crate::infra::Inf;
use crate::text::{decimal, decimal_string, join_lines, push_char};

verus! {

broadcast use vstd::string::group_string_axioms;

/// A planned DynamoDB table.
#[derive(Debug)]
pub struct DynamoDB {
    pub name: String,
}

/// A planned EMR cluster.
#[derive(Debug)]
pub struct EMR {
    pub name: String,
}

/// A planned S3 bucket.
#[derive(Debug)]
pub struct S3 {
    pub name: String,
}

/// The planned infrastructure: the resources of each service, in order.
#[derive(Debug)]
pub struct Lockfile {
    pub dynamodb: Vec<DynamoDB>,
    pub emr: Vec<EMR>,
    pub s3: Vec<S3>,
}

/// A lockfile as the names of its resources, per service.
pub struct LockfileView {
    pub dynamodb: Seq<Seq<char>>,
    pub emr: Seq<Seq<char>>,
    pub s3: Seq<Seq<char>>,
}

impl View for Lockfile {
    type V = LockfileView;

    open spec fn view(&self) -> LockfileView {
        LockfileView {
            dynamodb: self.dynamodb@.map_values(|d: DynamoDB| d.name@),
            emr: self.emr@.map_values(|e: EMR| e.name@),
            s3: self.s3@.map_values(|s: S3| s.name@),
        }
    }
}

impl LockfileView {
    /// The lockfile with no resources.
    pub open spec fn empty() -> LockfileView {
        LockfileView { dynamodb: Seq::empty(), emr: Seq::empty(), s3: Seq::empty() }
    }

    /// The names of the resources of one service.
    pub open spec fn entries(self, inf: Inf) -> Seq<Seq<char>> {
        match inf {
            Inf::DynamoDB => self.dynamodb,
            Inf::EMR => self.emr,
            Inf::S3 => self.s3,
        }
    }

    /// The lockfile with the resources of one service replaced by `names`.
    pub open spec fn with_entries(self, inf: Inf, names: Seq<Seq<char>>) -> LockfileView {
        match inf {
            Inf::DynamoDB => LockfileView { dynamodb: names, ..self },
            Inf::EMR => LockfileView { emr: names, ..self },
            Inf::S3 => LockfileView { s3: names, ..self },
        }
    }

    /// No service has a resource.
    pub open spec fn is_empty(self) -> bool {
        self.dynamodb.len() == 0 && self.emr.len() == 0 && self.s3.len() == 0
    }
}

impl Default for Lockfile {
    /// The lockfile with no resources.
    fn default() -> (l: Lockfile)
        ensures
            l@ == LockfileView::empty(),
    {
        let l = Lockfile { dynamodb: Vec::new(), emr: Vec::new(), s3: Vec::new() };
        assert(l@.dynamodb =~= Seq::<Seq<char>>::empty());
        assert(l@.emr =~= Seq::<Seq<char>>::empty());
        assert(l@.s3 =~= Seq::<Seq<char>>::empty());
        l
    }
}

/// A line of `n` equals signs.
pub open spec fn underline(n: nat) -> Seq<char> {
    Seq::new(n, |i: int| '=')
}

/// The listing of one service: a title underlined, a blank line, one name per
/// line and a blank line; nothing when there is no name.
pub open spec fn section(title: Seq<char>, names: Seq<Seq<char>>) -> Seq<char> {
    if names.len() == 0 {
        Seq::empty()
    } else {
        title + seq!['\n'] + underline(title.len()) + seq!['\n', '\n'] + join_lines(names) + seq![
            '\n']
    }
}

/// The listing of a lockfile shown by `el get`: a section for each service that
/// has resources, or "No state." when none has.
pub open spec fn spec_display(l: LockfileView) -> Seq<char> {
    if l.is_empty() {
        "No state.\n"@
    } else {
        section("DynamoDB Tables"@, l.dynamodb) + section("EMR Clusters"@, l.emr) + section(
            "S3 Buckets"@,
            l.s3,
        )
    }
}

/// The fixed first part of the name of each resource of a service.
pub open spec fn name_prefix(inf: Inf) -> Seq<char> {
    match inf {
        Inf::DynamoDB => "elasticlab-dynamodb-"@,
        Inf::EMR => "elasticlab-emr-"@,
        Inf::S3 => "elasticlab-s3-"@,
    }
}

/// The name of the `i`-th resource of a service (counting from 1).
pub open spec fn resource_name(inf: Inf, i: nat) -> Seq<char> {
    name_prefix(inf) + decimal(i)
}

/// The names of the first `n` resources of a service, numbered from 1.
pub open spec fn resource_names(inf: Inf, n: nat) -> Seq<Seq<char>> {
    Seq::new(n, |i: int| resource_name(inf, (i + 1) as nat))
}

/// The lockfile after `el set <inf> <n>`: that service holds exactly its
/// first `n` resources; the others are kept.
pub open spec fn spec_set(l: LockfileView, inf: Inf, n: nat) -> LockfileView {
    l.with_entries(inf, resource_names(inf, n))
}

/// The strings held by a vector of strings, as character sequences.
pub open spec fn string_views(v: Seq<String>) -> Seq<Seq<char>> {
    v.map_values(|s: String| s@)
}

fn prefix_str(inf: Inf) -> (p: &'static str)
    ensures
        p@ == name_prefix(inf),
{
    match inf {
        Inf::DynamoDB => "elasticlab-dynamodb-",
        Inf::EMR => "elasticlab-emr-",
        Inf::S3 => "elasticlab-s3-",
    }
}

/// The name of the `i`-th resource of a service.
pub fn make_resource_name(inf: Inf, i: u16) -> (name: String)
    ensures
        name@ == resource_name(inf, i as nat),
{
    let mut name = String::new();
    name.append(prefix_str(inf));
    let digits = decimal_string(i as u64);
    name.append(digits.as_str());
    name
}

/// The names of the first `n` resources of a service.
pub fn make_resource_names(inf: Inf, n: u8) -> (names: Vec<String>)
    ensures
        string_views(names@) == resource_names(inf, n as nat),
{
    let mut names: Vec<String> = Vec::new();
    let mut x: u16 = 1;
    let count: u16 = n as u16;
    while x <= count
        invariant
            1 <= x <= count + 1,
            count == n,
            string_views(names@) == resource_names(inf, (x - 1) as nat),
        decreases count + 1 - x,
    {
        let name = make_resource_name(inf, x);
        let ghost before = string_views(names@);
        names.push(name);
        assert(string_views(names@) =~= resource_names(inf, x as nat)) by {
            assert(string_views(names@) =~= before.push(resource_name(inf, x as nat)));
        }
        x = x + 1;
    }
    names
}

impl Lockfile {
    /// The names of the resources of one service, in order.
    pub fn names(&self, inf: Inf) -> (names: Vec<String>)
        ensures
            string_views(names@) == self@.entries(inf),
    {
        let mut names: Vec<String> = Vec::new();
        match inf {
            Inf::DynamoDB => {
                let mut i: usize = 0;
                while i < self.dynamodb.len()
                    invariant
                        i <= self.dynamodb@.len(),
                        string_views(names@) == self@.dynamodb.take(i as int),
                    decreases self.dynamodb@.len() - i,
                {
                    let ghost before = string_views(names@);
                    let n = self.dynamodb[i].name.clone();
                    assert(n@ == self@.dynamodb[i as int]);
                    names.push(n);
                    assert(string_views(names@) =~= before.push(n@));
                    i = i + 1;
                    assert(string_views(names@) =~= self@.dynamodb.take(i as int));
                }
                assert(self@.dynamodb.take(i as int) =~= self@.dynamodb);
            },
            Inf::EMR => {
                let mut i: usize = 0;
                while i < self.emr.len()
                    invariant
                        i <= self.emr@.len(),
                        string_views(names@) == self@.emr.take(i as int),
                    decreases self.emr@.len() - i,
                {
                    let ghost before = string_views(names@);
                    let n = self.emr[i].name.clone();
                    assert(n@ == self@.emr[i as int]);
                    names.push(n);
                    assert(string_views(names@) =~= before.push(n@));
                    i = i + 1;
                    assert(string_views(names@) =~= self@.emr.take(i as int));
                }
                assert(self@.emr.take(i as int) =~= self@.emr);
            },
            Inf::S3 => {
                let mut i: usize = 0;
                while i < self.s3.len()
                    invariant
                        i <= self.s3@.len(),
                        string_views(names@) == self@.s3.take(i as int),
                    decreases self.s3@.len() - i,
                {
                    let ghost before = string_views(names@);
                    let n = self.s3[i].name.clone();
                    assert(n@ == self@.s3[i as int]);
                    names.push(n);
                    assert(string_views(names@) =~= before.push(n@));
                    i = i + 1;
                    assert(string_views(names@) =~= self@.s3.take(i as int));
                }
                assert(self@.s3.take(i as int) =~= self@.s3);
            },
        }
        names
    }

    /// The listing shown by `el get` for this lockfile.
    pub fn display_string(&self) -> (text: String)
        ensures
            text@ == spec_display(self@),
    {
        if self.dynamodb.len() == 0 && self.emr.len() == 0 && self.s3.len() == 0 {
            return "No state.\n".to_owned();
        }
        let mut text = String::new();
        append_section(&mut text, "DynamoDB Tables", &self.names(Inf::DynamoDB));
        append_section(&mut text, "EMR Clusters", &self.names(Inf::EMR));
        append_section(&mut text, "S3 Buckets", &self.names(Inf::S3));
        text
    }
}

/// Appends the listing of one service to `out`.
fn append_section(out: &mut String, title: &str, names: &Vec<String>)
    ensures
        final(out)@ == old(out)@ + section(title@, string_views(names@)),
{
    if names.len() == 0 {
        assert(old(out)@ + section(title@, string_views(names@)) =~= old(out)@);
        return;
    }
    let ghost start = out@;
    out.append(title);
    push_char(out, '\n');
    let n = title.unicode_len();
    let mut k: usize = 0;
    while k < n
        invariant
            k <= n,
            n == title@.len(),
            out@ == start + title@ + seq!['\n'] + underline(k as nat),
        decreases n - k,
    {
        push_char(out, '=');
        k = k + 1;
        assert(underline(k as nat) =~= underline((k - 1) as nat).push('='));
    }
    push_char(out, '\n');
    push_char(out, '\n');
    let ghost head = out@;
    assert(head =~= start + title@ + seq!['\n'] + underline(n as nat) + seq!['\n', '\n']);
    let mut i: usize = 0;
    while i < names.len()
        invariant
            i <= names@.len(),
            out@ == head + join_lines(string_views(names@).take(i as int)),
        decreases names@.len() - i,
    {
        out.append(names[i].as_str());
        push_char(out, '\n');
        proof {
            let t = string_views(names@).take(i + 1);
            assert(t.drop_last() =~= string_views(names@).take(i as int));
            assert(t.last() == names@[i as int]@);
        }
        i = i + 1;
    }
    push_char(out, '\n');
    assert(string_views(names@).take(names@.len() as int) =~= string_views(names@));
    assert(final(out)@ =~= old(out)@ + section(title@, string_views(names@)));
}

/// The lockfile after `el set <infrastructure> <number>`: that service holds
/// the resources named `elasticlab-<service>-1` to `elasticlab-<service>-<number>`,
/// and the other services keep theirs.
pub fn set_infrastructure(lockfile: Lockfile, infrastructure: Inf, number: u8) -> (l: Lockfile)
    ensures
        l@ == spec_set(lockfile@, infrastructure, number as nat),
{
    let names = make_resource_names(infrastructure, number);
    let mut l = lockfile;
    match infrastructure {
        Inf::DynamoDB => {
            let mut v: Vec<DynamoDB> = Vec::new();
            let mut i: usize = 0;
            while i < names.len()
                invariant
                    i <= names@.len(),
                    v@.map_values(|d: DynamoDB| d.name@) == string_views(names@).take(i as int),
                decreases names@.len() - i,
            {
                let ghost before = v@.map_values(|d: DynamoDB| d.name@);
                let n = names[i].clone();
                assert(n@ == string_views(names@)[i as int]);
                v.push(DynamoDB { name: n });
                assert(v@.map_values(|d: DynamoDB| d.name@) =~= before.push(n@));
                i = i + 1;
                assert(v@.map_values(|d: DynamoDB| d.name@) =~= string_views(names@).take(i as int));
            }
            assert(string_views(names@).take(i as int) =~= string_views(names@));
            l.dynamodb = v;
        },
        Inf::EMR => {
            let mut v: Vec<EMR> = Vec::new();
            let mut i: usize = 0;
            while i < names.len()
                invariant
                    i <= names@.len(),
                    v@.map_values(|d: EMR| d.name@) == string_views(names@).take(i as int),
                decreases names@.len() - i,
            {
                let ghost before = v@.map_values(|d: EMR| d.name@);
                let n = names[i].clone();
                assert(n@ == string_views(names@)[i as int]);
                v.push(EMR { name: n });
                assert(v@.map_values(|d: EMR| d.name@) =~= before.push(n@));
                i = i + 1;
                assert(v@.map_values(|d: EMR| d.name@) =~= string_views(names@).take(i as int));
            }
            assert(string_views(names@).take(i as int) =~= string_views(names@));
            l.emr = v;
        },
        Inf::S3 => {
            let mut v: Vec<S3> = Vec::new();
            let mut i: usize = 0;
            while i < names.len()
                invariant
                    i <= names@.len(),
                    v@.map_values(|d: S3| d.name@) == string_views(names@).take(i as int),
                decreases names@.len() - i,
            {
                let ghost before = v@.map_values(|d: S3| d.name@);
                let n = names[i].clone();
                assert(n@ == string_views(names@)[i as int]);
                v.push(S3 { name: n });
                assert(v@.map_values(|d: S3| d.name@) =~= before.push(n@));
                i = i + 1;
                assert(v@.map_values(|d: S3| d.name@) =~= string_views(names@).take(i as int));
            }
            assert(string_views(names@).take(i as int) =~= string_views(names@));
            l.s3 = v;
        },
    }
    l
}

} // verus!
