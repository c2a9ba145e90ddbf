//! Version reporting: the build-time information record, the output formats
//! the version command accepts, and the exact text layouts it emits. The
//! surrounding process gathers the build-time strings and prints; the record,
//! the choice of layout and the rendered text are decided and proved here.

use vstd::prelude::*;
use vstd::string::StringExecFns;

verus! {

/// Build-time version information, as plain strings.
#[derive(PartialEq, Eq, Debug)]
pub struct VersionInfo {
    pub build_date: String,
    pub build_timestamp: String,
    pub git_commit_date: String,
    pub git_describe: String,
    pub git_sha: String,
    pub os_version: String,
}

/// How the version command writes its answer.
#[derive(Clone, Copy, PartialEq, Eq, Structural, Debug)]
pub enum VersionOutput {
    JsonPretty,
    JsonCompact,
    FullPretty,
    FullCompact,
    DescribeLine,
}

/// The log verbosity levels the command line accepts.
#[derive(Clone, Copy, PartialEq, Eq, Structural, Debug)]
pub enum LogLevel {
    Error,
    Warn,
    Info,
    Debug,
    Trace,
}

/// The output format names the version command accepts.
#[derive(Clone, Copy, PartialEq, Eq, Structural, Debug)]
pub enum VersionOutputFormat {
    Text,
    Json,
    Full,
}

/// The plan chosen for an output format name: `json` and `full` mind the
/// pretty flag; any other name prints the describe string alone.
pub open spec fn spec_version_output_plan(name: Seq<char>, pretty: bool) -> VersionOutput {
    if name == "json"@ {
        if pretty {
            VersionOutput::JsonPretty
        } else {
            VersionOutput::JsonCompact
        }
    } else if name == "full"@ {
        if pretty {
            VersionOutput::FullPretty
        } else {
            VersionOutput::FullCompact
        }
    } else {
        VersionOutput::DescribeLine
    }
}

/// Decide how the version command writes its answer.
pub fn version_output_plan(output: &String, pretty: bool) -> (r: VersionOutput)
    ensures
        r == spec_version_output_plan(output@, pretty),
{
    let json_name: String = "json".to_owned();
    let full_name: String = "full".to_owned();
    if *output == json_name {
        if pretty {
            VersionOutput::JsonPretty
        } else {
            VersionOutput::JsonCompact
        }
    } else if *output == full_name {
        if pretty {
            VersionOutput::FullPretty
        } else {
            VersionOutput::FullCompact
        }
    } else {
        VersionOutput::DescribeLine
    }
}

impl LogLevel {
    /// The level's name, as the logging configuration spells it.
    pub open spec fn spec_name(self) -> Seq<char> {
        match self {
            LogLevel::Error => "error"@,
            LogLevel::Warn => "warn"@,
            LogLevel::Info => "info"@,
            LogLevel::Debug => "debug"@,
            LogLevel::Trace => "trace"@,
        }
    }

    pub fn to_string(&self) -> (r: String)
        ensures
            r@ == self.spec_name(),
    {
        match self {
            LogLevel::Error => "error".to_owned(),
            LogLevel::Warn => "warn".to_owned(),
            LogLevel::Info => "info".to_owned(),
            LogLevel::Debug => "debug".to_owned(),
            LogLevel::Trace => "trace".to_owned(),
        }
    }
}

impl VersionOutputFormat {
    /// The format's name, as the command line spells it.
    pub open spec fn spec_name(self) -> Seq<char> {
        match self {
            VersionOutputFormat::Text => "text"@,
            VersionOutputFormat::Json => "json"@,
            VersionOutputFormat::Full => "full"@,
        }
    }

    pub fn to_string(&self) -> (r: String)
        ensures
            r@ == self.spec_name(),
    {
        match self {
            VersionOutputFormat::Text => "text".to_owned(),
            VersionOutputFormat::Json => "json".to_owned(),
            VersionOutputFormat::Full => "full".to_owned(),
        }
    }
}

/// Law: handing a format's own name to the plan gives the plan that format
/// means — `json` and `full` mind the pretty flag, `text` never does.
pub proof fn lemma_format_name_round_trip(f: VersionOutputFormat, pretty: bool)
    ensures
        spec_version_output_plan(f.spec_name(), pretty) == (match f {
            VersionOutputFormat::Json => if pretty {
                VersionOutput::JsonPretty
            } else {
                VersionOutput::JsonCompact
            },
            VersionOutputFormat::Full => if pretty {
                VersionOutput::FullPretty
            } else {
                VersionOutput::FullCompact
            },
            VersionOutputFormat::Text => VersionOutput::DescribeLine,
        }),
{
    reveal_strlit("text");
    reveal_strlit("json");
    reveal_strlit("full");
    assert("text"@[0] == 't' && "json"@[0] == 'j' && "full"@[0] == 'f');
    assert("text"@ != "json"@);
    assert("text"@ != "full"@);
    assert("full"@ != "json"@);
}

/// The name/value pairs with each string seen as its characters.
pub open spec fn pairs_view(pairs: Seq<(String, String)>) -> Seq<(Seq<char>, Seq<char>)> {
    pairs.map_values(|p: (String, String)| (p.0@, p.1@))
}

/// The fields of a JSON object from `i` on: `"name":"value"`, a comma after
/// every field but the last.
pub open spec fn json_fields_view(pairs: Seq<(Seq<char>, Seq<char>)>, i: int) -> Seq<char>
    decreases pairs.len() - i,
{
    if i < 0 || i >= pairs.len() {
        Seq::empty()
    } else {
        "\""@ + pairs[i].0 + "\":\""@ + pairs[i].1 + (if i + 1 < pairs.len() {
            "\","@
        } else {
            "\""@
        }) + json_fields_view(pairs, i + 1)
    }
}

/// The pairs as one compact JSON object of string fields, in their order.
/// Text is inserted as it stands; nothing is escaped.
pub open spec fn json_object_view(pairs: Seq<(Seq<char>, Seq<char>)>) -> Seq<char> {
    "{"@ + json_fields_view(pairs, 0) + "}"@
}

/// Render name/value pairs as one compact JSON object of string fields.
pub fn render_json_object(pairs: &Vec<(String, String)>) -> (r: String)
    ensures
        r@ == json_object_view(pairs_view(pairs@)),
{
    let ghost gp = pairs_view(pairs@);
    let mut out: String = "{".to_owned();
    let mut i: usize = 0;
    while i < pairs.len()
        invariant
            i <= pairs.len(),
            gp == pairs_view(pairs@),
            gp.len() == pairs.len(),
            out@ + json_fields_view(gp, i as int) + "}"@ == json_object_view(gp),
        decreases pairs.len() - i,
    {
        let ghost pre = out@;
        out.append("\"");
        out.append(pairs[i].0.as_str());
        out.append("\":\"");
        out.append(pairs[i].1.as_str());
        if i + 1 < pairs.len() {
            out.append("\",");
        } else {
            out.append("\"");
        }
        proof {
            assert(gp[i as int] == (pairs@[i as int].0@, pairs@[i as int].1@));
            assert(out@ + json_fields_view(gp, i as int + 1) + "}"@ =~= pre + json_fields_view(
                gp,
                i as int,
            ) + "}"@);
        }
        i = i + 1;
    }
    out.append("}");
    proof {
        assert(out@ =~= json_object_view(gp));
    }
    out
}

impl VersionInfo {
    /// The record as one compact JSON object. Values are inserted as they
    /// stand; nothing is escaped.
    pub open spec fn json_compact_view(self) -> Seq<char> {
        "{\"build_date\":\""@ + self.build_date@ + "\",\"build_timestamp\":\""@
            + self.build_timestamp@ + "\",\"git_commit_date\":\""@ + self.git_commit_date@
            + "\",\"git_describe\":\""@ + self.git_describe@ + "\",\"git_sha\":\""@
            + self.git_sha@ + "\",\"os_version\":\""@ + self.os_version@ + "\"}"@
    }

    /// The record as an indented JSON object, one field per line. Values are
    /// inserted as they stand; nothing is escaped.
    pub open spec fn json_pretty_view(self) -> Seq<char> {
        "{\n  \"build_date\": \""@ + self.build_date@ + "\",\n  \"build_timestamp\": \""@
            + self.build_timestamp@ + "\",\n  \"git_commit_date\": \""@ + self.git_commit_date@
            + "\",\n  \"git_describe\": \""@ + self.git_describe@ + "\",\n  \"git_sha\": \""@
            + self.git_sha@ + "\",\n  \"os_version\": \""@ + self.os_version@ + "\"\n}"@
    }

    /// Render the record as compact JSON.
    pub fn to_json(&self) -> (r: String)
        ensures
            r@ == self.json_compact_view(),
    {
        let mut out: String = "{\"build_date\":\"".to_owned();
        out.append(self.build_date.as_str());
        out.append("\",\"build_timestamp\":\"");
        out.append(self.build_timestamp.as_str());
        out.append("\",\"git_commit_date\":\"");
        out.append(self.git_commit_date.as_str());
        out.append("\",\"git_describe\":\"");
        out.append(self.git_describe.as_str());
        out.append("\",\"git_sha\":\"");
        out.append(self.git_sha.as_str());
        out.append("\",\"os_version\":\"");
        out.append(self.os_version.as_str());
        out.append("\"}");
        proof {
            assert(out@ =~= self.json_compact_view());
        }
        out
    }

    /// Render the record as indented JSON.
    pub fn to_json_pretty(&self) -> (r: String)
        ensures
            r@ == self.json_pretty_view(),
    {
        let mut out: String = "{\n  \"build_date\": \"".to_owned();
        out.append(self.build_date.as_str());
        out.append("\",\n  \"build_timestamp\": \"");
        out.append(self.build_timestamp.as_str());
        out.append("\",\n  \"git_commit_date\": \"");
        out.append(self.git_commit_date.as_str());
        out.append("\",\n  \"git_describe\": \"");
        out.append(self.git_describe.as_str());
        out.append("\",\n  \"git_sha\": \"");
        out.append(self.git_sha.as_str());
        out.append("\",\n  \"os_version\": \"");
        out.append(self.os_version.as_str());
        out.append("\"\n}");
        proof {
            assert(out@ =~= self.json_pretty_view());
        }
        out
    }
}

} // verus!
