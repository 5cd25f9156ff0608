//! What the command line tool shows: elapsed times, version lines, the
//! per-command result records, and indented XML.
use vstd::prelude::*;
use crate::filesystem::names_of;
use crate::search::{WhichError, failure_message};
use crate::text::{
    chars_of, string_of, append_chars, push_char, trim, trim_chars, has_pair, has_pair_chars,
    spaces, remove_all,
};

verus! {

/// The decimal digit for `d` (taken below ten).
pub open spec fn digit_char(d: int) -> char {
    if d == 0 {
        '0'
    } else if d == 1 {
        '1'
    } else if d == 2 {
        '2'
    } else if d == 3 {
        '3'
    } else if d == 4 {
        '4'
    } else if d == 5 {
        '5'
    } else if d == 6 {
        '6'
    } else if d == 7 {
        '7'
    } else if d == 8 {
        '8'
    } else {
        '9'
    }
}

/// `n` written in decimal, without leading zeros.
pub open spec fn decimal(n: nat) -> Seq<char>
    decreases n,
{
    if n < 10 {
        seq![digit_char(n as int)]
    } else {
        decimal(n / 10) + seq![digit_char((n % 10) as int)]
    }
}

fn digit(d: u128) -> (c: char)
    requires
        d < 10,
    ensures
        c == digit_char(d as int),
{
    if d == 0 {
        '0'
    } else if d == 1 {
        '1'
    } else if d == 2 {
        '2'
    } else if d == 3 {
        '3'
    } else if d == 4 {
        '4'
    } else if d == 5 {
        '5'
    } else if d == 6 {
        '6'
    } else if d == 7 {
        '7'
    } else if d == 8 {
        '8'
    } else {
        '9'
    }
}

/// Appends `n` in decimal to `out`.
pub fn push_decimal(out: &mut String, n: u128)
    ensures
        final(out)@ == old(out)@ + decimal(n as nat),
    decreases n,
{
    if n >= 10 {
        push_decimal(out, n / 10);
    }
    let d = digit(n % 10);
    push_char(out, d);
    proof {
        if n >= 10 {
            assert(final(out)@ =~= old(out)@ + decimal(n as nat));
        } else {
            assert(final(out)@ =~= old(out)@ + decimal(n as nat));
        }
    }
}

/// A duration of `micros` microseconds, written in its two largest units
/// (`2h 5min`, `5min 30s`, `5s 500ms`), a lower one left out when it is
/// zero; below a millisecond, in microseconds (`500μs`).
pub open spec fn duration_text(micros: nat) -> Seq<char> {
    let millis = micros / 1000;
    let seconds = micros / 1000000;
    let minutes = seconds / 60;
    let hours = minutes / 60;
    if hours > 0 {
        if minutes % 60 > 0 {
            decimal(hours) + "h "@ + decimal(minutes % 60) + "min"@
        } else {
            decimal(hours) + "h"@
        }
    } else if minutes > 0 {
        if seconds % 60 > 0 {
            decimal(minutes) + "min "@ + decimal(seconds % 60) + "s"@
        } else {
            decimal(minutes) + "min"@
        }
    } else if seconds > 0 {
        if millis % 1000 > 0 {
            decimal(seconds) + "s "@ + decimal(millis % 1000) + "ms"@
        } else {
            decimal(seconds) + "s"@
        }
    } else if millis > 0 {
        decimal(millis) + "ms"@
    } else {
        decimal(micros) + "μs"@
    }
}

/// Writes a duration of `micros` microseconds for people (see `duration_text`).
pub fn format_duration(micros: u128) -> (r: String)
    ensures
        r@ == duration_text(micros as nat),
{
    let millis = micros / 1000;
    let seconds = micros / 1000000;
    let minutes = seconds / 60;
    let hours = minutes / 60;
    let mut s = String::new();
    if hours > 0 {
        push_decimal(&mut s, hours);
        if minutes % 60 > 0 {
            s.append("h ");
            push_decimal(&mut s, minutes % 60);
            s.append("min");
        } else {
            s.append("h");
        }
    } else if minutes > 0 {
        push_decimal(&mut s, minutes);
        if seconds % 60 > 0 {
            s.append("min ");
            push_decimal(&mut s, seconds % 60);
            s.append("s");
        } else {
            s.append("min");
        }
    } else if seconds > 0 {
        push_decimal(&mut s, seconds);
        if millis % 1000 > 0 {
            s.append("s ");
            push_decimal(&mut s, millis % 1000);
            s.append("ms");
        } else {
            s.append("s");
        }
    } else if millis > 0 {
        push_decimal(&mut s, millis);
        s.append("ms");
    } else {
        push_decimal(&mut s, micros);
        s.append("μs");
    }
    s
}


/// Version information of the tool.
#[derive(Debug, Clone)]
pub struct VersionInfo {
    pub name: String,
    pub version: String,
    pub git_commit: Option<String>,
    pub git_branch: Option<String>,
    pub build_date: Option<String>,
}

/// `prefix` + `value` + `)` when a value is present, nothing otherwise.
pub open spec fn detail(prefix: Seq<char>, value: Option<String>) -> Seq<char> {
    match value {
        Some(v) => prefix + v@ + ")"@,
        None => Seq::empty(),
    }
}

/// The version line: name and version, then the commit, branch and build
/// date that are known.
pub open spec fn version_line(v: VersionInfo) -> Seq<char> {
    v.name@ + " "@ + v.version@ + detail(" (commit: "@, v.git_commit) + detail(
        " (branch: "@,
        v.git_branch,
    ) + detail(" (built: "@, v.build_date)
}

impl VersionInfo {
    pub fn new(
        name: String,
        version: String,
        git_commit: Option<String>,
        git_branch: Option<String>,
        build_date: Option<String>,
    ) -> (r: VersionInfo)
        ensures
            r == (VersionInfo { name, version, git_commit, git_branch, build_date }),
    {
        VersionInfo { name, version, git_commit, git_branch, build_date }
    }

    /// The version line (see `version_line`).
    pub fn display(&self) -> (r: String)
        ensures
            r@ == version_line(*self),
    {
        let mut info = self.name.clone();
        info.append(" ");
        info.append(self.version.as_str());
        if let Some(commit) = &self.git_commit {
            info.append(" (commit: ");
            info.append(commit.as_str());
            info.append(")");
        }
        if let Some(branch) = &self.git_branch {
            info.append(" (branch: ");
            info.append(branch.as_str());
            info.append(")");
        }
        if let Some(date) = &self.build_date {
            info.append(" (built: ");
            info.append(date.as_str());
            info.append(")");
        }
        info
    }
}

/// The prefix that Windows puts before canonical paths (`\\?\`).
pub open spec fn verbatim_prefix() -> Seq<char> {
    seq!['\\', '\\', '?', '\\']
}

/// The outcome of one command, as it is reported.
#[derive(Debug, Clone)]
pub struct WhichResult {
    pub command: String,
    pub paths: Vec<String>,
    pub found: bool,
    pub elapsed_time: Option<String>,
}

/// `s` without the verbatim prefixes in it.
fn without_verbatim(s: &String) -> (r: String)
    ensures
        r@ == remove_all(s@, verbatim_prefix()),
{
    let c = chars_of(s.as_str());
    let pat: Vec<char> = vec!['\\', '\\', '?', '\\'];
    assert(pat@ =~= verbatim_prefix());
    let mut out: Vec<char> = Vec::new();
    let mut i: usize = 0;
    assert(c@.skip(0) =~= c@);
    while i < c.len()
        invariant
            i <= c@.len(),
            pat@ == verbatim_prefix(),
            out@ + remove_all(c@.skip(i as int), pat@) == remove_all(c@, pat@),
        decreases c.len() - i,
    {
        let ghost rest = c@.skip(i as int);
        let at = c.len() >= 4 && i <= c.len() - 4 && c[i] == '\\' && c[i + 1] == '\\' && c[i + 2] == '?' && c[i
            + 3] == '\\';
        if at {
            assert(rest.take(4) =~= pat@);
            assert(rest.skip(4) =~= c@.skip(i + 4));
            i = i + 4;
        } else {
            assert(rest.len() < 4 || rest.take(4) != pat@) by {
                if rest.len() >= 4 {
                    assert(rest.take(4)[0] == c@[i as int]);
                    assert(rest.take(4)[1] == c@[i + 1]);
                    assert(rest.take(4)[2] == c@[i + 2]);
                    assert(rest.take(4)[3] == c@[i + 3]);
                }
            }
            assert(rest.drop_first() =~= c@.skip(i + 1));
            assert(rest[0] == c@[i as int]);
            let ghost before = out@;
            out.push(c[i]);
            assert(out@ + remove_all(c@.skip(i + 1), pat@) =~= before + remove_all(rest, pat@));
            i = i + 1;
        }
    }
    assert(c@.skip(c@.len() as int) =~= Seq::<char>::empty());
    assert(out@ =~= remove_all(c@, pat@));
    string_of(&out)
}

impl WhichResult {
    /// The record of `command` with the paths found (verbatim prefixes
    /// removed); it counts as found when there is at least one path.
    pub fn new_with_time(command: &str, paths: Vec<String>, elapsed_time: Option<String>) -> (r:
        WhichResult)
        ensures
            r.command@ == command@,
            r.found == (paths@.len() > 0),
            names_of(r.paths@) == names_of(paths@).map_values(
                |p: Seq<char>| remove_all(p, verbatim_prefix()),
            ),
            r.elapsed_time == elapsed_time,
    {
        let mut shown: Vec<String> = Vec::new();
        let mut i: usize = 0;
        while i < paths.len()
            invariant
                i <= paths@.len(),
                shown@.len() == i,
                forall|k: int|
                    0 <= k < i ==> #[trigger] shown@[k]@ == remove_all(
                        paths@[k]@,
                        verbatim_prefix(),
                    ),
            decreases paths.len() - i,
        {
            let p = without_verbatim(&paths[i]);
            shown.push(p);
            i = i + 1;
        }
        assert(names_of(shown@) =~= names_of(paths@).map_values(
            |p: Seq<char>| remove_all(p, verbatim_prefix()),
        ));
        WhichResult {
            command: command.to_owned(),
            paths: shown,
            found: paths.len() > 0,
            elapsed_time,
        }
    }
}

/// How results are printed.
#[derive(Debug, Clone, Copy, PartialEq, Eq, Structural)]
pub enum OutputFormat {
    Text,
    Json,
    Xml,
}

/// The complaint about a format name other than `text`, `json` or `xml`.
pub open spec fn unsupported_format_message(name: Seq<char>) -> Seq<char> {
    "unsupported format: "@ + name + ". Use 'text', 'json', or 'xml'"@
}

/// The output format called `name`.
pub fn parse_format(name: &str) -> (r: Result<OutputFormat, String>)
    ensures
        name@ == "text"@ ==> r == Ok::<OutputFormat, String>(OutputFormat::Text),
        name@ == "json"@ ==> r == Ok::<OutputFormat, String>(OutputFormat::Json),
        name@ == "xml"@ ==> r == Ok::<OutputFormat, String>(OutputFormat::Xml),
        name@ != "text"@ && name@ != "json"@ && name@ != "xml"@ ==> (r matches Err(m) && m@
            == unsupported_format_message(name@)),
{
    proof {
        reveal_strlit("text");
        reveal_strlit("json");
        reveal_strlit("xml");
        assert("json"@ != "text"@) by {
            assert("json"@[0] != "text"@[0]);
        }
        assert("xml"@ != "text"@) by {
            assert("xml"@.len() != "text"@.len());
        }
        assert("xml"@ != "json"@) by {
            assert("xml"@.len() != "json"@.len());
        }
    }
    let given = name.to_owned();
    if given == "text".to_owned() {
        Ok(OutputFormat::Text)
    } else if given == "json".to_owned() {
        Ok(OutputFormat::Json)
    } else if given == "xml".to_owned() {
        Ok(OutputFormat::Xml)
    } else {
        let mut m = "unsupported format: ".to_owned();
        m.append(name);
        m.append(". Use 'text', 'json', or 'xml'");
        Err(m)
    }
}

/// Every command of a run was found.
pub open spec fn all_found(found: Seq<bool>) -> bool {
    forall|i: int| 0 <= i < found.len() ==> found[i]
}

/// The exit status of a run in which `found` tells, command by command,
/// whether it was found: 0 when all were, 1 when one was not (so that
/// `which cmd || ...` takes the second branch for a missing command).
pub fn exit_status(found: &Vec<bool>) -> (r: i32)
    ensures
        r == (if all_found(found@) {
            0i32
        } else {
            1i32
        }),
{
    let mut i: usize = 0;
    while i < found.len()
        invariant
            i <= found@.len(),
            forall|j: int| 0 <= j < i ==> found@[j],
        decreases found.len() - i,
    {
        if !found[i] {
            return 1;
        }
        i = i + 1;
    }
    0
}

/// What to do with the outcome of one command.
#[derive(Debug)]
pub enum Report {
    /// Keep this result for the output.
    Record(WhichResult),
    /// Print this line on the error stream now.
    Complain(String),
    /// Nothing (the time report names the command later).
    Quiet,
}

/// Decides what becomes of the outcome of searching `cmd`: a success, and
/// in `json` and `xml` a failure too, is kept as a result; in `text` a
/// failure is reported at once as `cmd: message`, unless times are shown.
pub fn report_outcome(
    cmd: &str,
    outcome: Result<Vec<String>, WhichError>,
    text_format: bool,
    show_time: bool,
    elapsed_time: Option<String>,
) -> (r: Report)
    ensures
        match outcome {
            Ok(paths) => (r matches Report::Record(w) && w.command@ == cmd@ && w.found == (paths@.len()
                > 0) && names_of(w.paths@) == names_of(paths@).map_values(
                |p: Seq<char>| remove_all(p, verbatim_prefix()),
            ) && w.elapsed_time == elapsed_time),
            Err(e) => if !text_format {
                (r matches Report::Record(w) && w.command@ == cmd@ && !w.found && w.paths@.len() == 0
                    && w.elapsed_time == elapsed_time)
            } else if !show_time {
                (r matches Report::Complain(m) && m@ == cmd@ + ": "@ + failure_message(e@))
            } else {
                r matches Report::Quiet
            },
        },
{
    match outcome {
        Ok(paths) => Report::Record(WhichResult::new_with_time(cmd, paths, elapsed_time)),
        Err(e) => {
            if !text_format {
                let r = WhichResult::new_with_time(cmd, Vec::new(), elapsed_time);
                assert(names_of(r.paths@).len() == 0);
                Report::Record(r)
            } else if !show_time {
                let mut m = cmd.to_owned();
                m.append(": ");
                let detail = e.message();
                m.append(detail.as_str());
                Report::Complain(m)
            } else {
                Report::Quiet
            }
        },
    }
}

/// A line of text output and the stream it goes to.
#[derive(Debug, Clone)]
pub enum Line {
    Stdout(String),
    Stderr(String),
}

/// The text lines of one result: each path, then its time when times are
/// shown; for a command not found, only the time line on the error stream.
pub open spec fn result_lines(w: WhichResult, show_time: bool) -> Seq<(bool, Seq<char>)> {
    if w.found {
        names_of(w.paths@).map_values(|p: Seq<char>| (true, p)) + if show_time
            && w.elapsed_time is Some {
            seq![(true, "Time: "@ + w.elapsed_time->0@)]
        } else {
            Seq::empty()
        }
    } else if show_time && w.elapsed_time is Some {
        seq![(false, w.command@ + " not found (Time: "@ + w.elapsed_time->0@ + ")"@)]
    } else {
        Seq::empty()
    }
}

/// The text lines of all results, in order.
pub open spec fn all_result_lines(ws: Seq<WhichResult>, show_time: bool) -> Seq<(bool, Seq<char>)>
    decreases ws.len(),
{
    if ws.len() == 0 {
        Seq::empty()
    } else {
        all_result_lines(ws.drop_last(), show_time) + result_lines(ws.last(), show_time)
    }
}

/// The view of a line: whether it goes to the output stream, and its text.
pub open spec fn line_view(l: Line) -> (bool, Seq<char>) {
    match l {
        Line::Stdout(s) => (true, s@),
        Line::Stderr(s) => (false, s@),
    }
}

/// The lines printed for `results` in the `text` format.
pub fn text_lines(results: &Vec<WhichResult>, show_time: bool) -> (r: Vec<Line>)
    ensures
        r@.map_values(|l: Line| line_view(l)) == all_result_lines(results@, show_time),
{
    let mut lines: Vec<Line> = Vec::new();
    let mut i: usize = 0;
    while i < results.len()
        invariant
            i <= results@.len(),
            lines@.map_values(|l: Line| line_view(l)) == all_result_lines(
                results@.take(i as int),
                show_time,
            ),
        decreases results.len() - i,
    {
        let w = &results[i];
        assert(results@.take(i + 1).drop_last() =~= results@.take(i as int));
        let ghost before = lines@.map_values(|l: Line| line_view(l));
        let ghost want = result_lines(*w, show_time);
        let mut added: Vec<Line> = Vec::new();
        if w.found {
            let mut j: usize = 0;
            while j < w.paths.len()
                invariant
                    j <= w.paths@.len(),
                    added@.len() == j,
                    added@.map_values(|l: Line| line_view(l)) == names_of(w.paths@).take(
                        j as int,
                    ).map_values(|p: Seq<char>| (true, p)),
                decreases w.paths.len() - j,
            {
                let p = w.paths[j].clone();
                assert(p@ == names_of(w.paths@)[j as int]);
                let ghost prev = added@;
                added.push(Line::Stdout(p));
                proof {
                    let lhs = added@.map_values(|l: Line| line_view(l));
                    let rhs = names_of(w.paths@).take(j + 1).map_values(|p: Seq<char>| (true, p));
                    assert forall|k: int| 0 <= k < j + 1 implies #[trigger] lhs[k] == rhs[k] by {
                        if k < j {
                            assert(added@[k] == prev[k]);
                            assert(prev.map_values(|l: Line| line_view(l))[k] == names_of(
                                w.paths@,
                            ).take(j as int).map_values(|p: Seq<char>| (true, p))[k]);
                        }
                    }
                    assert(lhs =~= rhs);
                }
                j = j + 1;
            }
            assert(names_of(w.paths@).take(w.paths@.len() as int) =~= names_of(w.paths@));
            if show_time {
                if let Some(t) = &w.elapsed_time {
                    let mut m = "Time: ".to_owned();
                    m.append(t.as_str());
                    added.push(Line::Stdout(m));
                }
            }
        } else if show_time {
            if let Some(t) = &w.elapsed_time {
                let mut m = w.command.clone();
                m.append(" not found (Time: ");
                m.append(t.as_str());
                m.append(")");
                added.push(Line::Stderr(m));
            }
        }
        assert(added@.map_values(|l: Line| line_view(l)) =~= want);
        let mut more = added;
        lines.append(&mut more);
        assert(lines@.map_values(|l: Line| line_view(l)) =~= before + want);
        i = i + 1;
    }
    assert(results@.take(results@.len() as int) =~= results@);
    lines
}


/// The state of the XML layout after some characters of input.
///
/// `out` holds the lines laid out so far; `depth` counts the elements whose
/// opening line is out and whose closing tag has not come; `pending` is an
/// opening tag that is held back until it is known whether its element holds
/// only text (then it stays on one line); `tag` is the tag being read when
/// `in_tag` holds; `text` is what came since the last tag.
pub struct XmlState {
    pub out: Seq<char>,
    pub depth: nat,
    pub pending: Option<Seq<char>>,
    pub in_tag: bool,
    pub tag: Seq<char>,
    pub text: Seq<char>,
}

/// `n` less one, but not below zero.
pub open spec fn one_less(n: nat) -> nat {
    if n > 0 {
        (n - 1) as nat
    } else {
        0
    }
}

/// `out` with one more line: `indent` spaces, then `line`.
pub open spec fn add_line(out: Seq<char>, indent: nat, line: Seq<char>) -> Seq<char> {
    if out.len() == 0 {
        spaces(indent) + line
    } else {
        out + seq!['\n'] + spaces(indent) + line
    }
}

/// The indent of a line at `depth`: two spaces a level on top of `base`.
pub open spec fn indent_at(base: nat, depth: nat) -> nat {
    base + 2 * depth
}

/// A tag that closes an element: `</...>`.
pub open spec fn is_closing_tag(t: Seq<char>) -> bool {
    t.len() >= 2 && t[1] == '/'
}

/// A tag that opens no element: one that closes itself (`<x/>`) or a
/// declaration (`<?...?>`).
pub open spec fn is_standalone_tag(t: Seq<char>) -> bool {
    has_pair(t, '/', '>') || (t.len() >= 2 && t[1] == '?')
}

/// Puts a held-back opening tag out on its own line; its element then
/// counts as open.
pub open spec fn emit_pending(st: XmlState, base: nat) -> XmlState {
    match st.pending {
        Some(p) => XmlState {
            out: add_line(st.out, indent_at(base, st.depth), p),
            depth: st.depth + 1,
            pending: None,
            ..st
        },
        None => st,
    }
}

/// Puts the text since the last tag, trimmed, on a line of its own at the
/// current depth; blank text is dropped.
pub open spec fn emit_text(st: XmlState, base: nat) -> XmlState {
    let txt = trim(st.text);
    XmlState {
        out: if txt.len() > 0 {
            add_line(st.out, indent_at(base, st.depth), txt)
        } else {
            st.out
        },
        text: Seq::empty(),
        ..st
    }
}

/// Ends the tag being read at `>`.
///
/// A closing tag right after its opening tag ends an element that holds
/// only text: opening tag, trimmed text and closing tag go on one line.
/// Any other closing tag goes on its own line, lined up with its opening
/// tag. A self-closing tag or a declaration goes on its own line at the
/// current depth; an opening tag is held back.
pub open spec fn xml_end_tag(st: XmlState, base: nat) -> XmlState {
    let t = st.tag.push('>');
    let done = XmlState { in_tag: false, tag: Seq::empty(), text: Seq::empty(), ..st };
    if is_closing_tag(t) {
        match st.pending {
            Some(p) => XmlState {
                out: add_line(st.out, indent_at(base, st.depth), p + trim(st.text) + t),
                pending: None,
                ..done
            },
            None => {
                let s1 = emit_text(st, base);
                let d = one_less(st.depth);
                XmlState { out: add_line(s1.out, indent_at(base, d), t), depth: d, ..done }
            },
        }
    } else {
        let s1 = emit_text(emit_pending(st, base), base);
        if is_standalone_tag(t) {
            XmlState {
                out: add_line(s1.out, indent_at(base, s1.depth), t),
                depth: s1.depth,
                pending: None,
                ..done
            }
        } else {
            XmlState { out: s1.out, depth: s1.depth, pending: Some(t), ..done }
        }
    }
}

/// One character of input: `<` starts a tag and `>` ends it; other
/// characters add to the tag being read or to the text.
pub open spec fn xml_step(st: XmlState, c: char, base: nat) -> XmlState {
    if st.in_tag {
        if c == '>' {
            xml_end_tag(st, base)
        } else {
            XmlState { tag: st.tag.push(c), ..st }
        }
    } else if c == '<' {
        XmlState { in_tag: true, tag: seq!['<'], ..st }
    } else {
        XmlState { text: st.text.push(c), ..st }
    }
}

/// The state after all of `xml`.
pub open spec fn xml_run(xml: Seq<char>, base: nat) -> XmlState
    decreases xml.len(),
{
    if xml.len() == 0 {
        XmlState {
            out: Seq::empty(),
            depth: 0,
            pending: None,
            in_tag: false,
            tag: Seq::empty(),
            text: Seq::empty(),
        }
    } else {
        xml_step(xml_run(xml.drop_last(), base), xml.last(), base)
    }
}

/// `xml` laid out one element per line: an element that holds only text
/// stays on one line, each level of nesting adds two spaces on top of
/// `base`, and a closing tag lines up with its opening tag. A tag left
/// unterminated at the end is dropped.
pub open spec fn xml_layout(xml: Seq<char>, base: nat) -> Seq<char> {
    emit_text(emit_pending(xml_run(xml, base), base), base).out
}

struct XmlWriter {
    out: Vec<char>,
    depth: usize,
    pending: Option<Vec<char>>,
    in_tag: bool,
    tag: Vec<char>,
    text: Vec<char>,
}

impl XmlWriter {
    spec fn state(&self) -> XmlState {
        XmlState {
            out: self.out@,
            depth: self.depth as nat,
            pending: match self.pending {
                Some(p) => Some(p@),
                None => None,
            },
            in_tag: self.in_tag,
            tag: self.tag@,
            text: self.text@,
        }
    }

    fn add_line(&mut self, indent: usize, line: &Vec<char>)
        ensures
            final(self).out@ == add_line(old(self).out@, indent as nat, line@),
            final(self).depth == old(self).depth,
            final(self).pending == old(self).pending,
            final(self).in_tag == old(self).in_tag,
            final(self).tag == old(self).tag,
            final(self).text == old(self).text,
    {
        if self.out.len() > 0 {
            self.out.push('\n');
        }
        let ghost o1 = self.out@;
        let mut k: usize = 0;
        while k < indent
            invariant
                k <= indent,
                self.out@ == o1 + spaces(k as nat),
                self.depth == old(self).depth,
                self.pending == old(self).pending,
                self.in_tag == old(self).in_tag,
                self.tag == old(self).tag,
                self.text == old(self).text,
            decreases indent - k,
        {
            self.out.push(' ');
            k = k + 1;
            assert(self.out@ =~= o1 + spaces(k as nat));
        }
        append_chars(&mut self.out, line);
        assert(self.out@ =~= add_line(old(self).out@, indent as nat, line@));
    }

    fn emit_pending(&mut self, base: usize)
        requires
            old(self).depth < usize::MAX,
            base + 2 * old(self).depth <= usize::MAX,
        ensures
            final(self).state() == emit_pending(old(self).state(), base as nat),
    {
        match self.pending.take() {
            Some(p) => {
                let n = base + 2 * self.depth;
                self.add_line(n, &p);
                self.depth = self.depth + 1;
            },
            None => {},
        }
    }

    fn emit_text(&mut self, base: usize)
        requires
            base + 2 * old(self).depth <= usize::MAX,
        ensures
            final(self).state() == emit_text(old(self).state(), base as nat),
    {
        let t = trim_chars(&self.text);
        if t.len() > 0 {
            let n = base + 2 * self.depth;
            self.add_line(n, &t);
        }
        self.text = Vec::new();
        assert(self.text@ =~= Seq::<char>::empty());
    }

    fn end_tag(&mut self, base: usize)
        requires
            old(self).depth < usize::MAX,
            base + 2 * (old(self).depth + 1) <= usize::MAX,
        ensures
            final(self).state() == xml_end_tag(old(self).state(), base as nat),
            final(self).depth <= old(self).depth + 1,
    {
        let ghost st = old(self).state();
        let mut t: Vec<char> = Vec::new();
        std::mem::swap(&mut t, &mut self.tag);
        t.push('>');
        assert(t@ == st.tag.push('>'));
        if t.len() >= 2 && t[1] == '/' {
            match self.pending.take() {
                Some(p) => {
                    let mut line = p;
                    let txt = trim_chars(&self.text);
                    append_chars(&mut line, &txt);
                    append_chars(&mut line, &t);
                    let n = base + 2 * self.depth;
                    self.add_line(n, &line);
                },
                None => {
                    self.emit_text(base);
                    if self.depth > 0 {
                        self.depth = self.depth - 1;
                    }
                    let n = base + 2 * self.depth;
                    self.add_line(n, &t);
                },
            }
        } else {
            self.emit_pending(base);
            self.emit_text(base);
            let standalone = has_pair_chars(&t, '/', '>') || (t.len() >= 2 && t[1] == '?');
            if standalone {
                let n = base + 2 * self.depth;
                self.add_line(n, &t);
            } else {
                self.pending = Some(t);
            }
        }
        self.in_tag = false;
        self.text = Vec::new();
        assert(self.text@ =~= Seq::<char>::empty());
        assert(self.tag@ =~= Seq::<char>::empty());
    }

    fn step(&mut self, c: char, base: usize, bound: usize)
        requires
            old(self).depth <= bound,
            bound < usize::MAX,
            base + 2 * (bound + 1) <= usize::MAX,
        ensures
            final(self).state() == xml_step(old(self).state(), c, base as nat),
            final(self).depth <= bound + 1,
    {
        if self.in_tag {
            if c == '>' {
                self.end_tag(base);
            } else {
                self.tag.push(c);
            }
        } else if c == '<' {
            self.in_tag = true;
            self.tag = vec!['<'];
            assert(self.tag@ =~= seq!['<']);
        } else {
            self.text.push(c);
        }
    }
}

/// Lays `xml` out one element per line (see `xml_layout`).
pub fn format_xml(xml: &str, base_indent: usize) -> (r: String)
    requires
        xml@.len() * 2 + base_indent + 2 <= usize::MAX,
    ensures
        r@ == xml_layout(xml@, base_indent as nat),
{
    let chars = chars_of(xml);
    let mut w = XmlWriter {
        out: Vec::new(),
        depth: 0,
        pending: None,
        in_tag: false,
        tag: Vec::new(),
        text: Vec::new(),
    };
    assert(w.state() == xml_run(chars@.take(0), base_indent as nat)) by {
        assert(w.out@ =~= Seq::<char>::empty());
        assert(w.tag@ =~= Seq::<char>::empty());
        assert(w.text@ =~= Seq::<char>::empty());
    }
    let mut i: usize = 0;
    while i < chars.len()
        invariant
            i <= chars@.len() == xml@.len(),
            xml@.len() * 2 + base_indent + 2 <= usize::MAX,
            w.depth <= i,
            w.state() == xml_run(chars@.take(i as int), base_indent as nat),
        decreases chars.len() - i,
    {
        assert(chars@.take(i + 1).drop_last() =~= chars@.take(i as int));
        w.step(chars[i], base_indent, i);
        i = i + 1;
    }
    assert(chars@.take(chars@.len() as int) =~= chars@);
    w.emit_pending(base_indent);
    w.emit_text(base_indent);
    string_of(&w.out)
}

} // verus!
