//! Command-line parameters and job descriptions of a small build-and-load
//! runner: what to run (a CSV merge, a load test, a VM inventory) and on
//! which targets.
use vstd::prelude::*;
use vstd::string::StringExecFns;
use crate::text::{push_char, same_chars};
use csv::ReaderBuilder;

verus! {

/// The parameters given on the command line: a job name and a path.
pub struct Param {
    case: String,
    path: String,
}

/// The job a parameter names.
#[derive(Debug, PartialEq, Eq, Clone, Copy, Structural)]
pub enum Job {
    Csv,
    Siege,
    Virsh,
    Nothing,
}

impl Param {
    pub closed spec fn case_view(&self) -> Seq<char> {
        self.case@
    }

    pub closed spec fn path_view(&self) -> Seq<char> {
        self.path@
    }

    /// Reads the job name and the path from the arguments, the program's
    /// name being the first. Fewer than two arguments are an error.
    pub fn build(args: Vec<String>) -> (r: Result<Param, &'static str>)
        requires
            args.len() != 2,
        ensures
            args.len() < 2 ==> (r matches Err(e) && e@ == "not enough arguments"@),
            args.len() > 2 ==> (r matches Ok(p) && p.case_view() == args@[1]@ && p.path_view()
                == args@[2]@),
    {
        if args.len() < 2 {
            return Err("not enough arguments");
        }
        Ok(Param { case: args[1].clone(), path: args[2].clone() })
    }

    /// The path given on the command line.
    pub fn path(&self) -> (p: &str)
        ensures
            p@ == self.path_view(),
    {
        self.path.as_str()
    }

    /// The job the first argument names: `csv`, `siege` or `virsh`;
    /// anything else names no job.
    pub fn job(&self) -> (j: Job)
        ensures
            j == job_of(self.case_view()),
    {
        let c = crate::text::chars_of(self.case.as_str());
        let csv = ['c', 's', 'v'];
        let siege = ['s', 'i', 'e', 'g', 'e'];
        let virsh = ['v', 'i', 'r', 's', 'h'];
        assert(csv@ =~= seq!['c', 's', 'v']);
        assert(siege@ =~= seq!['s', 'i', 'e', 'g', 'e']);
        assert(virsh@ =~= seq!['v', 'i', 'r', 's', 'h']);
        if same_chars(&c, &csv) {
            Job::Csv
        } else if same_chars(&c, &siege) {
            Job::Siege
        } else if same_chars(&c, &virsh) {
            Job::Virsh
        } else {
            Job::Nothing
        }
    }
}

pub open spec fn job_of(case: Seq<char>) -> Job {
    if case == seq!['c', 's', 'v'] {
        Job::Csv
    } else if case == seq!['s', 'i', 'e', 'g', 'e'] {
        Job::Siege
    } else if case == seq!['v', 'i', 'r', 's', 'h'] {
        Job::Virsh
    } else {
        Job::Nothing
    }
}

/// Decimal digits of a number, without leading zeros.
pub open spec fn decimal(n: nat) -> Seq<char>
    decreases n,
{
    if n < 10 {
        seq![digit_char(n)]
    } else {
        decimal(n / 10).push(digit_char(n % 10))
    }
}

pub open spec fn digit_char(d: nat) -> char {
    (('0' as nat) + d) as char
}

/// Appends the decimal digits of `n` to `s`.
pub fn push_decimal(s: &mut String, n: u64)
    ensures
        final(s)@ == old(s)@ + decimal(n as nat),
    decreases n,
{
    if n >= 10 {
        push_decimal(s, n / 10);
    }
    let d = (n % 10) as u32;
    let c = ((48u32 + d) as u8) as char;
    assert(c == digit_char((n % 10) as nat));
    push_char(s, c);
    assert(s@ =~= old(s)@ + decimal(n as nat));
}

/// A load test: each target is hit on each endpoint.
pub struct Siege {
    pub proto: String,
    pub port: u16,
    pub concurrent: u8,
    pub targets: Vec<String>,
    pub endpoints: Vec<String>,
}

/// The address of one endpoint on one target:
/// `proto://node:port` followed by the endpoint.
pub open spec fn address(proto: Seq<char>, node: Seq<char>, port: nat, endpoint: Seq<char>) -> Seq<
    char,
> {
    proto + seq![':', '/', '/'] + node + seq![':'] + decimal(port) + endpoint
}

impl Siege {
    /// The addresses to load on `node`, one per endpoint, in order.
    pub fn addresses(&self, node: &str) -> (v: Vec<String>)
        ensures
            v@.len() == self.endpoints@.len(),
            forall|i: int|
                0 <= i < v@.len() ==> #[trigger] v@[i]@ == address(
                    self.proto@,
                    node@,
                    self.port as nat,
                    self.endpoints@[i]@,
                ),
    {
        let mut v: Vec<String> = Vec::new();
        let mut i: usize = 0;
        while i < self.endpoints.len()
            invariant
                i <= self.endpoints@.len(),
                v@.len() == i,
                forall|k: int|
                    0 <= k < i ==> #[trigger] v@[k]@ == address(
                        self.proto@,
                        node@,
                        self.port as nat,
                        self.endpoints@[k]@,
                    ),
            decreases self.endpoints@.len() - i,
        {
            let mut a = String::new();
            a.append(self.proto.as_str());
            push_char(&mut a, ':');
            push_char(&mut a, '/');
            push_char(&mut a, '/');
            a.append(node);
            push_char(&mut a, ':');
            push_decimal(&mut a, self.port as u64);
            a.append(self.endpoints[i].as_str());
            assert(a@ =~= address(self.proto@, node@, self.port as nat, self.endpoints@[i as int]@));
            v.push(a);
            i = i + 1;
        }
        v
    }
}

/// A table's cells as text, row by row.
pub open spec fn table_text(v: Seq<Vec<String>>) -> Seq<Seq<Seq<char>>> {
    v.map_values(|row: Vec<String>| row@.map_values(|c: String| c@))
}

/// The records that `csv` reads from a text with no header row, each a
/// list of fields; `None` when a record is in error.
pub uninterp spec fn csv_records(text: Seq<char>) -> Option<Seq<Seq<Seq<char>>>>;

/// Trusted: `csv::ReaderBuilder` with `has_headers(false)` reading the
/// bytes of `text`, each record's fields taken as strings. The contract
/// names the records `csv_records` (an error on any record is `None`) and
/// states what the reader's default, non-flexible mode shows: every record
/// has as many fields as the first.
#[verifier::external_body]
fn read_csv(text: &str) -> (r: Option<Vec<Vec<String>>>)
    ensures
        r is None <==> csv_records(text@) is None,
        r matches Some(v) ==> csv_records(text@) == Some(table_text(v@)),
        r matches Some(v) ==> forall|i: int|
            0 <= i < v@.len() ==> #[trigger] v@[i]@.len() == v@[0]@.len(),
{
    let mut out = Vec::new();
    for rec in ReaderBuilder::new().has_headers(false).from_reader(text.as_bytes()).records() {
        match rec {
            Ok(row) => out.push(row.iter().map(str::to_string).collect()),
            Err(_) => return None,
        }
    }
    Some(out)
}

/// The rows of one CSV file's text, read without a header row: each row a
/// list of fields, all rows as long as the first. `None` when a record
/// cannot be read.
pub fn csv_rows(text: &str) -> (r: Option<Vec<Vec<String>>>)
    ensures
        r is None <==> csv_records(text@) is None,
        r matches Some(v) ==> csv_records(text@) == Some(table_text(v@)),
        r matches Some(v) ==> forall|i: int|
            0 <= i < v@.len() ==> #[trigger] v@[i]@.len() == v@[0]@.len(),
{
    read_csv(text)
}

/// A virtual-machine inventory over the given node numbers.
pub struct Virsh {
    pub nodes: Vec<usize>,
}

} // verus!
