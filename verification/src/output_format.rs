//! The output formats a conversion can write.

use vstd::prelude::*;

use crate::text::chars_of;
use vstd::string::StringExecFns;

verus! {

/// An output format.
#[derive(Debug, Clone, Copy, PartialEq, Eq, Structural)]
pub enum FormatType {
    /// The records as JSON.
    Json,
    /// Trace Event Format.
    Tef,
    /// Graph nodes and edges as CSV.
    Csv,
    /// Trace Event Format and graph CSV.
    TefCsv,
    /// No format was recognised.
    NoFormat,
}

/// `c` in lower case, for ASCII letters.
pub open spec fn ascii_lower(c: char) -> char {
    if 'A' <= c && c <= 'Z' {
        ((c as int) + 32) as char
    } else {
        c
    }
}

/// `s` equals the lower-case ASCII word `w` once lower-cased. For words of
/// ASCII letters and `-` this is what comparing `to_lowercase()` with the word
/// gives: no other character lower-cases to one of them.
pub open spec fn lower_equals(s: Seq<char>, w: Seq<char>) -> bool {
    s.len() == w.len() && forall|i: int| 0 <= i < s.len() ==> ascii_lower(#[trigger] s[i]) == w[i]
}

/// The format a format argument names: `json`, `tef`, `csv`, or `tef-csv`,
/// in any case, or exactly `csv-tef`.
pub open spec fn format_of(s: Seq<char>) -> FormatType {
    if lower_equals(s, "json"@) {
        FormatType::Json
    } else if lower_equals(s, "tef"@) {
        FormatType::Tef
    } else if lower_equals(s, "csv"@) {
        FormatType::Csv
    } else if lower_equals(s, "tef-csv"@) || s == "csv-tef"@ {
        FormatType::TefCsv
    } else {
        FormatType::NoFormat
    }
}

/// How many output files a format writes.
pub open spec fn writers_of(f: FormatType) -> usize {
    match f {
        FormatType::Json => 1,
        FormatType::Tef => 1,
        FormatType::Csv => 2,
        FormatType::TefCsv => 3,
        FormatType::NoFormat => 0,
    }
}

/// The first line of a Trace Event Format or JSON file: the opening bracket.
pub const ARRAY_START: &'static str = "[";

/// The first line of the node file.
pub const NODE_HEADER: &'static str = "name,type";

/// The first line of the edge file.
pub const EDGE_HEADER: &'static str = "from_id,to_id,call_name,timestamp,success_flag";

/// The files a format writes, in order: the suffix added to the output name,
/// and the first line written to the file. No format writes nothing.
pub open spec fn output_files_spec(f: FormatType) -> Option<Seq<(Seq<char>, Seq<char>)>> {
    match f {
        FormatType::Json => Some(seq![(".json"@, ARRAY_START@)]),
        FormatType::Tef => Some(seq![(".tef"@, ARRAY_START@)]),
        FormatType::Csv => Some(seq![("-nodes.csv"@, NODE_HEADER@), ("-edges.csv"@, EDGE_HEADER@)]),
        FormatType::TefCsv => Some(
            seq![(".tef"@, ARRAY_START@), ("-nodes.csv"@, NODE_HEADER@), ("-edges.csv"@, EDGE_HEADER@)],
        ),
        FormatType::NoFormat => None,
    }
}

/// The positions of the node file and the edge file among the files a
/// format writes, for the formats that write a graph.
pub open spec fn graph_files_spec(f: FormatType) -> Option<(int, int)> {
    match f {
        FormatType::Csv => Some((0, 1)),
        FormatType::TefCsv => Some((1, 2)),
        _ => None,
    }
}

/// A file to write: its path and its first line.
#[derive(Debug)]
pub struct OutputFile {
    pub path: String,
    pub first_line: String,
}

/// The file `name` followed by `suffix`, starting with `first_line`.
fn output_file(name: &str, suffix: &str, first_line: &str) -> (f: OutputFile)
    ensures
        f.path@ == name@ + suffix@,
        f.first_line@ == first_line@,
{
    let mut path = name.to_owned();
    path.append(suffix);
    OutputFile { path, first_line: first_line.to_owned() }
}

/// Whether `v` equals `w` once lower-cased.
fn lower_equals_exec(v: &Vec<char>, w: &str) -> (b: bool)
    ensures
        b == lower_equals(v@, w@),
{
    let wv = chars_of(w);
    if v.len() != wv.len() {
        return false;
    }
    let mut i: usize = 0;
    while i < v.len()
        invariant
            0 <= i <= v@.len(),
            v@.len() == wv@.len(),
            wv@ == w@,
            forall|j: int| 0 <= j < i ==> ascii_lower(#[trigger] v@[j]) == wv@[j],
        decreases v@.len() - i,
    {
        let c = v[i];
        let lc = if 'A' <= c && c <= 'Z' {
            ((c as u32) + 32) as u8 as char
        } else {
            c
        };
        if lc != wv[i] {
            return false;
        }
        i = i + 1;
    }
    true
}

impl FormatType {
    /// The format a format argument names.
    pub fn from_arg(format: &str) -> (f: FormatType)
        ensures
            f == format_of(format@),
    {
        let v = chars_of(format);
        if lower_equals_exec(&v, "json") {
            FormatType::Json
        } else if lower_equals_exec(&v, "tef") {
            FormatType::Tef
        } else if lower_equals_exec(&v, "csv") {
            FormatType::Csv
        } else if lower_equals_exec(&v, "tef-csv") || format.to_owned() == "csv-tef".to_owned() {
            FormatType::TefCsv
        } else {
            FormatType::NoFormat
        }
    }

    /// The files this format writes for the output name `output_name`, in
    /// order, with their first lines; `None` for no format.
    pub fn output_files(&self, output_name: &str) -> (r: Option<Vec<OutputFile>>)
        ensures
            match output_files_spec(*self) {
                None => r is None,
                Some(fs) => r matches Some(v) && v@.len() == fs.len() && forall|i: int|
                    0 <= i < fs.len() ==> (#[trigger] v@[i]).path@ == output_name@ + fs[i].0
                        && v@[i].first_line@ == fs[i].1,
            },
    {
        let mut v: Vec<OutputFile> = Vec::new();
        match self {
            FormatType::Json => {
                v.push(output_file(output_name, ".json", ARRAY_START));
            },
            FormatType::Tef => {
                v.push(output_file(output_name, ".tef", ARRAY_START));
            },
            FormatType::Csv => {
                v.push(output_file(output_name, "-nodes.csv", NODE_HEADER));
                v.push(output_file(output_name, "-edges.csv", EDGE_HEADER));
            },
            FormatType::TefCsv => {
                v.push(output_file(output_name, ".tef", ARRAY_START));
                v.push(output_file(output_name, "-nodes.csv", NODE_HEADER));
                v.push(output_file(output_name, "-edges.csv", EDGE_HEADER));
            },
            FormatType::NoFormat => {
                return None;
            },
        }
        Some(v)
    }

    /// The positions of the node file and the edge file among this format's
    /// files; `None` for a format that writes no graph.
    pub fn graph_files(&self) -> (r: Option<(usize, usize)>)
        ensures
            match graph_files_spec(*self) {
                None => r is None,
                Some((n, e)) => r == Some((n as usize, e as usize)),
            },
    {
        match self {
            FormatType::Csv => Some((0, 1)),
            FormatType::TefCsv => Some((1, 2)),
            _ => None,
        }
    }

    /// How many output files this format writes.
    pub fn writer_count(&self) -> (n: usize)
        ensures
            n == writers_of(*self),
    {
        match self {
            FormatType::Json => 1,
            FormatType::Tef => 1,
            FormatType::Csv => 2,
            FormatType::TefCsv => 3,
            FormatType::NoFormat => 0,
        }
    }
}

/// A format writes as many files as `writer_count` says, and none exactly
/// for no format; a format that writes a graph writes its nodes to the
/// second-to-last file and its edges to the last.
pub proof fn lemma_output_layout(f: FormatType)
    ensures
        output_files_spec(f) is None <==> f == FormatType::NoFormat,
        output_files_spec(f) matches Some(fs) ==> fs.len() == writers_of(f),
        graph_files_spec(f) matches Some((n, e)) ==> {
            &&& output_files_spec(f) matches Some(fs)
            &&& e == fs.len() - 1
            &&& n == fs.len() - 2
            &&& fs[n].0 == "-nodes.csv"@
            &&& fs[n].1 == NODE_HEADER@
            &&& fs[e].0 == "-edges.csv"@
            &&& fs[e].1 == EDGE_HEADER@
        },
{
}

} // verus!
