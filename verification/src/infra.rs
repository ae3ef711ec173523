//! The kinds of infrastructure, options and locations the tool speaks of, with
//! their names and their case-insensitive parsing.

use vstd::prelude::*;
use vstd::string::StringExecFns;
use crate::text::{chars_of, decimal, decimal_string};

verus! {

broadcast use vstd::string::group_string_axioms;

/// `c` with an ASCII capital letter turned into its small letter.
pub open spec fn ascii_lower(c: char) -> char {
    if 'A' <= c && c <= 'Z' {
        ((c as int) + 32) as char
    } else {
        c
    }
}

/// `a` and `b` are equal but for the case of ASCII letters (as `str::eq_ignore_ascii_case`).
pub open spec fn eq_ignore_ascii_case(a: Seq<char>, b: Seq<char>) -> bool {
    &&& a.len() == b.len()
    &&& forall|i: int| 0 <= i < a.len() ==> ascii_lower(a[i]) == ascii_lower(b[i])
}

fn lower(c: char) -> (r: char)
    ensures
        r == ascii_lower(c),
        'A' <= c <= 'Z' ==> r as int == c as int + 32,
        !('A' <= c <= 'Z') ==> r == c,
{
    if 'A' <= c && c <= 'Z' {
        let b: u8 = c as u8 + 32;
        b as char
    } else {
        c
    }
}

/// Whether `a` and `b` are equal but for the case of ASCII letters.
pub fn eq_ignore_ascii_case_exec(a: &str, b: &str) -> (r: bool)
    ensures
        r == eq_ignore_ascii_case(a@, b@),
{
    let x = chars_of(a);
    let y = chars_of(b);
    if x.len() != y.len() {
        return false;
    }
    let mut i: usize = 0;
    while i < x.len()
        invariant
            x@ == a@,
            y@ == b@,
            x@.len() == y@.len(),
            i <= x@.len(),
            forall|k: int| 0 <= k < i ==> ascii_lower(x@[k]) == ascii_lower(y@[k]),
        decreases x@.len() - i,
    {
        if lower(x[i]) != lower(y[i]) {
            return false;
        }
        i = i + 1;
    }
    true
}

/// An Amazon Web Service whose resources the tool manages.
#[derive(PartialEq, Eq, Structural, Debug, Clone, Copy)]
pub enum Inf {
    DynamoDB,
    EMR,
    S3,
}

/// An option that can be set on a resource.
#[derive(PartialEq, Eq, Structural, Debug, Clone, Copy)]
pub enum Opti {
    ReadCapacity,
    WriteCapacity,
}

/// Where information about the infrastructure is read from.
#[derive(PartialEq, Eq, Structural, Debug, Clone, Copy)]
pub enum Location {
    Aws,
    Lock,
    Stage,
}

impl Inf {
    /// The name of the service, as written on the command line.
    pub open spec fn spec_name(self) -> Seq<char> {
        match self {
            Inf::DynamoDB => "DynamoDB"@,
            Inf::EMR => "EMR"@,
            Inf::S3 => "S3"@,
        }
    }

    /// The service that `s` names, ignoring ASCII case; the first in
    /// declaration order when several would match.
    pub open spec fn spec_parse(s: Seq<char>) -> Option<Inf> {
        if eq_ignore_ascii_case(s, "DynamoDB"@) {
            Some(Inf::DynamoDB)
        } else if eq_ignore_ascii_case(s, "EMR"@) {
            Some(Inf::EMR)
        } else if eq_ignore_ascii_case(s, "S3"@) {
            Some(Inf::S3)
        } else {
            None
        }
    }

    /// The name of the service.
    pub fn name(&self) -> (n: &'static str)
        ensures
            n@ == self.spec_name(),
    {
        match self {
            Inf::DynamoDB => "DynamoDB",
            Inf::EMR => "EMR",
            Inf::S3 => "S3",
        }
    }

    /// The service that `s` names, ignoring ASCII case, or the list of valid names.
    pub fn parse(s: &str) -> (r: Result<Inf, String>)
        ensures
            match Inf::spec_parse(s@) {
                Some(x) => r == Ok::<Inf, String>(x),
                None => r is Err && r->Err_0@ == "valid values: DynamoDB, EMR, S3"@,
            },
    {
        if eq_ignore_ascii_case_exec(s, "DynamoDB") {
            Ok(Inf::DynamoDB)
        } else if eq_ignore_ascii_case_exec(s, "EMR") {
            Ok(Inf::EMR)
        } else if eq_ignore_ascii_case_exec(s, "S3") {
            Ok(Inf::S3)
        } else {
            Err("valid values: DynamoDB, EMR, S3".to_owned())
        }
    }
}

impl Opti {
    /// The name of the option, as written on the command line.
    pub open spec fn spec_name(self) -> Seq<char> {
        match self {
            Opti::ReadCapacity => "ReadCapacity"@,
            Opti::WriteCapacity => "WriteCapacity"@,
        }
    }

    /// The option that `s` names, ignoring ASCII case.
    pub open spec fn spec_parse(s: Seq<char>) -> Option<Opti> {
        if eq_ignore_ascii_case(s, "ReadCapacity"@) {
            Some(Opti::ReadCapacity)
        } else if eq_ignore_ascii_case(s, "WriteCapacity"@) {
            Some(Opti::WriteCapacity)
        } else {
            None
        }
    }

    /// The name of the option.
    pub fn name(&self) -> (n: &'static str)
        ensures
            n@ == self.spec_name(),
    {
        match self {
            Opti::ReadCapacity => "ReadCapacity",
            Opti::WriteCapacity => "WriteCapacity",
        }
    }

    /// The option that `s` names, ignoring ASCII case, or the list of valid names.
    pub fn parse(s: &str) -> (r: Result<Opti, String>)
        ensures
            match Opti::spec_parse(s@) {
                Some(x) => r == Ok::<Opti, String>(x),
                None => r is Err && r->Err_0@ == "valid values: ReadCapacity, WriteCapacity"@,
            },
    {
        if eq_ignore_ascii_case_exec(s, "ReadCapacity") {
            Ok(Opti::ReadCapacity)
        } else if eq_ignore_ascii_case_exec(s, "WriteCapacity") {
            Ok(Opti::WriteCapacity)
        } else {
            Err("valid values: ReadCapacity, WriteCapacity".to_owned())
        }
    }
}

impl Location {
    /// The name of the location, as written on the command line.
    pub open spec fn spec_name(self) -> Seq<char> {
        match self {
            Location::Aws => "Aws"@,
            Location::Lock => "Lock"@,
            Location::Stage => "Stage"@,
        }
    }

    /// The location that `s` names, ignoring ASCII case.
    pub open spec fn spec_parse(s: Seq<char>) -> Option<Location> {
        if eq_ignore_ascii_case(s, "Aws"@) {
            Some(Location::Aws)
        } else if eq_ignore_ascii_case(s, "Lock"@) {
            Some(Location::Lock)
        } else if eq_ignore_ascii_case(s, "Stage"@) {
            Some(Location::Stage)
        } else {
            None
        }
    }

    /// The name of the location.
    pub fn name(&self) -> (n: &'static str)
        ensures
            n@ == self.spec_name(),
    {
        match self {
            Location::Aws => "Aws",
            Location::Lock => "Lock",
            Location::Stage => "Stage",
        }
    }

    /// The location that `s` names, ignoring ASCII case, or the list of valid names.
    pub fn parse(s: &str) -> (r: Result<Location, String>)
        ensures
            match Location::spec_parse(s@) {
                Some(x) => r == Ok::<Location, String>(x),
                None => r is Err && r->Err_0@ == "valid values: Aws, Lock, Stage"@,
            },
    {
        if eq_ignore_ascii_case_exec(s, "Aws") {
            Ok(Location::Aws)
        } else if eq_ignore_ascii_case_exec(s, "Lock") {
            Ok(Location::Lock)
        } else if eq_ignore_ascii_case_exec(s, "Stage") {
            Ok(Location::Stage)
        } else {
            Err("valid values: Aws, Lock, Stage".to_owned())
        }
    }
}

/// The line that reports an option setting: service, resource number, option
/// and value, separated by " : ".
pub open spec fn spec_opt_line(infrastructure: Inf, number: nat, option: Opti, value: Seq<char>) -> Seq<char> {
    infrastructure.spec_name() + " : "@ + decimal(number) + " : "@ + option.spec_name() + " : "@ + value
}

/// The line that reports an option setting.
pub fn opt_line(infrastructure: Inf, number: u8, option: Opti, value: &str) -> (line: String)
    ensures
        line@ == spec_opt_line(infrastructure, number as nat, option, value@),
{
    let mut line = String::new();
    line.append(infrastructure.name());
    line.append(" : ");
    let digits = decimal_string(number as u64);
    line.append(digits.as_str());
    line.append(" : ");
    line.append(option.name());
    line.append(" : ");
    line.append(value);
    line
}

} // verus!
