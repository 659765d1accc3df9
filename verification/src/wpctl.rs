//! Parsers for the audio daemon's textual reports: the sectioned status
//! report listing sinks and sources, the per-device inspection report, and
//! the name-mode status report used for node-name lookup.

use vstd::prelude::*;

use crate::text::contains_sub;
use crate::text::find_char_from;
use crate::text::find_sub_from;
use crate::text::is_space;
use crate::text::is_space_char;
use crate::text::parse_i32_str;
use crate::text::rfind_sub;
use crate::text::spec_lines;
use crate::text::spec_parse_i32;
use crate::text::spec_trim;
use crate::text::split_lines;
use crate::text::starts_with;
use crate::text::str_eq;
use crate::text::str_find_char;
use crate::text::str_find_sub;
use crate::text::str_rfind_sub;
use crate::text::str_starts_with;
use crate::text::trim_str;

verus! {

/// `s` with every selection marker (`*`) removed.
pub open spec fn remove_stars(s: Seq<char>) -> Seq<char>
    decreases s.len(),
{
    if s.len() == 0 {
        Seq::empty()
    } else if s.last() == '*' {
        remove_stars(s.drop_last())
    } else {
        remove_stars(s.drop_last()).push(s.last())
    }
}

fn remove_stars_str(s: &str) -> (r: String)
    ensures
        r@ == remove_stars(s@),
{
    let len = s.unicode_len();
    let mut out = String::new();
    let mut i: usize = 0;
    proof {
        assert(s@.take(0) =~= Seq::<char>::empty());
    }
    while i < len
        invariant
            0 <= i <= len,
            len == s@.len(),
            out@ == remove_stars(s@.take(i as int)),
        decreases len - i,
    {
        let c = s.get_char(i);
        proof {
            assert(s@.take(i + 1).drop_last() =~= s@.take(i as int));
            assert(s@.take(i + 1).last() == s@[i as int]);
        }
        if c != '*' {
            let piece = s.substring_char(i, i + 1);
            proof {
                assert(piece@ =~= seq![s@[i as int]]);
                assert(out@.push(s@[i as int]) =~= out@ + seq![s@[i as int]]);
            }
            out.append(piece);
        }
        i = i + 1;
    }
    proof {
        assert(s@.take(len as int) =~= s@);
    }
    out
}

/// The first index at or after `k` holding something other than the vertical
/// continuation glyph.
pub open spec fn skip_bars_from(s: Seq<char>, k: int) -> int
    decreases s.len() - k when 0 <= k <= s.len()
{
    if k >= s.len() {
        k
    } else if s[k] == '│' {
        skip_bars_from(s, k + 1)
    } else {
        k
    }
}

/// `s` with every leading vertical continuation glyph removed.
pub open spec fn strip_bars(s: Seq<char>) -> Seq<char> {
    s.subrange(skip_bars_from(s, 0), s.len() as int)
}

fn strip_bars_str<'a>(s: &'a str) -> (r: &'a str)
    ensures
        r@ == strip_bars(s@),
{
    let len = s.unicode_len();
    let mut a: usize = 0;
    while a < len && s.get_char(a) == '│'
        invariant
            0 <= a <= len,
            len == s@.len(),
            skip_bars_from(s@, 0) == skip_bars_from(s@, a as int),
        decreases len - a,
    {
        a = a + 1;
    }
    assert(a == skip_bars_from(s@, 0));
    s.substring_char(a, len)
}

/// One candidate device row, taken from an already trimmed line: all
/// selection markers removed, leading continuation glyphs stripped, the
/// integer identifier read from before the first `.`, and the label taken
/// from after it with a trailing volume annotation removed.
pub open spec fn spec_parse_row(t: Seq<char>) -> Option<(i32, Seq<char>)> {
    let row = spec_trim(strip_bars(spec_trim(remove_stars(t))));
    match find_char_from(row, '.', 0) {
        None => None,
        Some(dot) => {
            let id_part = spec_trim(row.subrange(0, dot));
            match spec_parse_i32(id_part) {
                None => None,
                Some(id) => {
                    let rest = spec_trim(row.subrange(dot + 1, row.len() as int));
                    let label = match rfind_sub(rest, " [vol:"@) {
                        Some(idx) => spec_trim(rest.subrange(0, idx)),
                        None => rest,
                    };
                    Some((id, label))
                },
            }
        },
    }
}

fn parse_status_row(t: &str) -> (r: Option<(i32, String)>)
    ensures
        match r {
            Some(d) => spec_parse_row(t@) == Some((d.0, d.1@)),
            None => spec_parse_row(t@) is None,
        },
{
    let row0 = remove_stars_str(t);
    let row1 = trim_str(row0.as_str());
    let row2 = strip_bars_str(row1);
    let row = trim_str(row2);
    let rowlen = row.unicode_len();
    match str_find_char(row, '.') {
        None => None,
        Some(dot) => {
            let id_part = trim_str(row.substring_char(0, dot));
            match parse_i32_str(id_part) {
                None => None,
                Some(id) => {
                    let rest = trim_str(row.substring_char(dot + 1, rowlen));
                    let label = match str_rfind_sub(rest, " [vol:") {
                        Some(idx) => trim_str(rest.substring_char(0, idx)).to_owned(),
                        None => rest.to_owned(),
                    };
                    Some((id, label))
                },
            }
        },
    }
}

/// The section the status scanner is in.
#[derive(Clone, Copy, PartialEq, Eq, Structural, Debug)]
pub enum Section {
    Outside,
    Sinks,
    Sources,
}

/// A line whose trimmed content opens the sink section.
pub open spec fn is_sinks_header(l: Seq<char>) -> bool {
    starts_with(spec_trim(l), "├─ Sinks:"@) || starts_with(spec_trim(l), "└─ Sinks:"@)
}

/// A line whose trimmed content opens the source section.
pub open spec fn is_sources_header(l: Seq<char>) -> bool {
    starts_with(spec_trim(l), "├─ Sources:"@) || starts_with(spec_trim(l), "└─ Sources:"@)
}

/// A line whose trimmed content begins with a tree branch marker.
pub open spec fn is_branch_line(l: Seq<char>) -> bool {
    starts_with(spec_trim(l), "├─ "@) || starts_with(spec_trim(l), "└─ "@)
}

/// The scanner state: the current section and the devices collected so far.
pub struct ParseState {
    pub section: Section,
    pub sinks: Seq<(i32, Seq<char>)>,
    pub sources: Seq<(i32, Seq<char>)>,
}

/// How one line changes the scanner state: a recognized header enters its
/// section, any other branch marker leaves all sections, and inside a
/// section a line that parses as a device row is appended to that section's
/// list.
pub open spec fn step_line(st: ParseState, line: Seq<char>) -> ParseState {
    if is_sinks_header(line) {
        ParseState { section: Section::Sinks, ..st }
    } else if is_sources_header(line) {
        ParseState { section: Section::Sources, ..st }
    } else if is_branch_line(line) {
        ParseState { section: Section::Outside, ..st }
    } else {
        match st.section {
            Section::Outside => st,
            Section::Sinks => match spec_parse_row(spec_trim(line)) {
                Some(d) => ParseState { sinks: st.sinks.push(d), ..st },
                None => st,
            },
            Section::Sources => match spec_parse_row(spec_trim(line)) {
                Some(d) => ParseState { sources: st.sources.push(d), ..st },
                None => st,
            },
        }
    }
}

pub open spec fn run_lines(lines: Seq<Seq<char>>, st: ParseState) -> ParseState
    decreases lines.len(),
{
    if lines.len() == 0 {
        st
    } else {
        run_lines(lines.drop_first(), step_line(st, lines.first()))
    }
}

pub open spec fn init_state() -> ParseState {
    ParseState { section: Section::Outside, sinks: Seq::empty(), sources: Seq::empty() }
}

/// The devices the status report lists: the fold of `step_line` over its
/// lines, starting outside any section.
pub open spec fn spec_parse_status(text: Seq<char>) -> ParseState {
    run_lines(spec_lines(text), init_state())
}

/// Parse the sectioned status report into its sink and source lists, each an
/// (identifier, label) pair in report order, malformed rows skipped.
pub fn parse_wpctl_status_for_devices(text: &str) -> (r: (Vec<(i32, String)>, Vec<(i32, String)>))
    ensures
        r.0.deep_view() == spec_parse_status(text@).sinks,
        r.1.deep_view() == spec_parse_status(text@).sources,
{
    let lines = split_lines(text);
    let n = lines.len();
    let mut sinks: Vec<(i32, String)> = Vec::new();
    let mut sources: Vec<(i32, String)> = Vec::new();
    let mut section = Section::Outside;
    let mut i: usize = 0;
    proof {
        assert(lines.deep_view().skip(0) =~= lines.deep_view());
        assert(sinks.deep_view() =~= Seq::<(i32, Seq<char>)>::empty());
        assert(sources.deep_view() =~= Seq::<(i32, Seq<char>)>::empty());
    }
    while i < n
        invariant
            0 <= i <= n,
            n == lines@.len(),
            lines.deep_view() == spec_lines(text@),
            run_lines(
                lines.deep_view().skip(i as int),
                ParseState {
                    section,
                    sinks: sinks.deep_view(),
                    sources: sources.deep_view(),
                },
            ) == spec_parse_status(text@),
        decreases n - i,
    {
        let ghost lv = lines.deep_view()[i as int];
        let ghost st0 = ParseState {
            section,
            sinks: sinks.deep_view(),
            sources: sources.deep_view(),
        };
        proof {
            assert(lv == lines@[i as int]@);
            assert(lines.deep_view().skip(i as int).first() == lv);
            assert(lines.deep_view().skip(i as int).drop_first() =~= lines.deep_view().skip(
                i + 1,
            ));
        }
        let t = trim_str(lines[i].as_str());
        if str_starts_with(t, "├─ Sinks:") || str_starts_with(t, "└─ Sinks:") {
            section = Section::Sinks;
        } else if str_starts_with(t, "├─ Sources:") || str_starts_with(t, "└─ Sources:") {
            section = Section::Sources;
        } else if str_starts_with(t, "├─ ") || str_starts_with(t, "└─ ") {
            section = Section::Outside;
        } else {
            match section {
                Section::Outside => {},
                Section::Sinks => {
                    match parse_status_row(t) {
                        Some(d) => {
                            let ghost dv = (d.0, d.1@);
                            let ghost before = sinks.deep_view();
                            sinks.push(d);
                            proof {
                                assert(sinks.deep_view() =~= before.push(dv));
                            }
                        },
                        None => {},
                    }
                },
                Section::Sources => {
                    match parse_status_row(t) {
                        Some(d) => {
                            let ghost dv = (d.0, d.1@);
                            let ghost before = sources.deep_view();
                            sources.push(d);
                            proof {
                                assert(sources.deep_view() =~= before.push(dv));
                            }
                        },
                        None => {},
                    }
                },
            }
        }
        proof {
            assert(ParseState {
                section,
                sinks: sinks.deep_view(),
                sources: sources.deep_view(),
            } == step_line(st0, lv));
        }
        i = i + 1;
    }
    proof {
        assert(lines.deep_view().skip(n as int) =~= Seq::<Seq<char>>::empty());
    }
    (sinks, sources)
}

/// A device data row: no section header, no other branch marker, and
/// parseable as an (identifier, label) row.
pub open spec fn is_data_row(l: Seq<char>) -> bool {
    &&& !is_sinks_header(l)
    &&& !is_sources_header(l)
    &&& !is_branch_line(l)
    &&& spec_parse_row(spec_trim(l)) is Some
}

/// The device a data row yields.
pub open spec fn row_device(l: Seq<char>) -> (i32, Seq<char>) {
    spec_parse_row(spec_trim(l))->Some_0
}

/// The devices a run of data rows yields, in order.
pub open spec fn row_devices(rows: Seq<Seq<char>>) -> Seq<(i32, Seq<char>)> {
    rows.map_values(|l: Seq<char>| row_device(l))
}

proof fn lemma_run_lines_append(a: Seq<Seq<char>>, b: Seq<Seq<char>>, st: ParseState)
    ensures
        run_lines(a + b, st) == run_lines(b, run_lines(a, st)),
    decreases a.len(),
{
    if a.len() == 0 {
        assert(a + b =~= b);
    } else {
        assert((a + b).first() == a.first());
        assert((a + b).drop_first() =~= a.drop_first() + b);
        lemma_run_lines_append(a.drop_first(), b, step_line(st, a.first()));
    }
}

proof fn lemma_run_data_rows(rows: Seq<Seq<char>>, st: ParseState)
    requires
        forall|i: int| 0 <= i < rows.len() ==> is_data_row(#[trigger] rows[i]),
        st.section == Section::Sinks || st.section == Section::Sources,
    ensures
        run_lines(rows, st).section == st.section,
        st.section == Section::Sinks ==> run_lines(rows, st).sinks == st.sinks + row_devices(
            rows,
        ) && run_lines(rows, st).sources == st.sources,
        st.section == Section::Sources ==> run_lines(rows, st).sources == st.sources
            + row_devices(rows) && run_lines(rows, st).sinks == st.sinks,
    decreases rows.len(),
{
    if rows.len() == 0 {
        assert(st.sinks + row_devices(rows) =~= st.sinks);
        assert(st.sources + row_devices(rows) =~= st.sources);
    } else {
        let st1 = step_line(st, rows.first());
        assert(is_data_row(rows[0]));
        assert(forall|j: int|
            0 <= j < rows.len() - 1 ==> (#[trigger] rows.drop_first()[j]) == rows[j + 1]);
        lemma_run_data_rows(rows.drop_first(), st1);
        if st.section == Section::Sinks {
            assert(st1.sinks == st.sinks.push(row_device(rows.first())));
            assert(st.sinks.push(row_device(rows.first())) + row_devices(rows.drop_first())
                =~= st.sinks + row_devices(rows));
        } else {
            assert(st1.sources == st.sources.push(row_device(rows.first())));
            assert(st.sources.push(row_device(rows.first())) + row_devices(rows.drop_first())
                =~= st.sources + row_devices(rows));
        }
    }
}

/// No line is both a sink-section header and a source-section header.
proof fn lemma_headers_distinct(l: Seq<char>)
    ensures
        !(is_sinks_header(l) && is_sources_header(l)),
{
    reveal_strlit("├─ Sinks:");
    reveal_strlit("└─ Sinks:");
    reveal_strlit("├─ Sources:");
    reveal_strlit("└─ Sources:");
    if is_sinks_header(l) && is_sources_header(l) {
        assert(spec_trim(l)[4] == 'i');
        assert(spec_trim(l)[4] == 'o');
    }
}

/// For well-formed status text: a sink header, its data rows, a source
/// header, then its data rows; the scanner returns exactly those rows'
/// devices, in their original order.
pub proof fn lemma_parse_well_formed(
    lines: Seq<Seq<char>>,
    sink_header: Seq<char>,
    sink_rows: Seq<Seq<char>>,
    source_header: Seq<char>,
    source_rows: Seq<Seq<char>>,
)
    requires
        is_sinks_header(sink_header),
        is_sources_header(source_header),
        forall|i: int| 0 <= i < sink_rows.len() ==> is_data_row(#[trigger] sink_rows[i]),
        forall|i: int| 0 <= i < source_rows.len() ==> is_data_row(#[trigger] source_rows[i]),
        lines == seq![sink_header] + sink_rows + seq![source_header] + source_rows,
    ensures
        run_lines(lines, init_state()).sinks == row_devices(sink_rows),
        run_lines(lines, init_state()).sources == row_devices(source_rows),
        run_lines(lines, init_state()).sinks.len() == sink_rows.len(),
        run_lines(lines, init_state()).sources.len() == source_rows.len(),
{
    let st0 = init_state();
    let tail1 = sink_rows + seq![source_header] + source_rows;
    assert(lines =~= seq![sink_header] + tail1);
    lemma_run_lines_append(seq![sink_header], tail1, st0);
    assert(seq![sink_header].drop_first() =~= Seq::<Seq<char>>::empty());
    assert(seq![sink_header].first() == sink_header);
    let st1 = step_line(st0, sink_header);
    assert(run_lines(Seq::<Seq<char>>::empty(), st1) == st1);
    assert(run_lines(seq![sink_header], st0) == st1);
    assert(st1.section == Section::Sinks);

    let tail2 = seq![source_header] + source_rows;
    assert(tail1 =~= sink_rows + tail2);
    lemma_run_lines_append(sink_rows, tail2, st1);
    lemma_run_data_rows(sink_rows, st1);
    let st2 = run_lines(sink_rows, st1);
    assert(st2.sinks =~= row_devices(sink_rows));
    assert(st2.section == Section::Sinks);

    lemma_run_lines_append(seq![source_header], source_rows, st2);
    assert(seq![source_header].drop_first() =~= Seq::<Seq<char>>::empty());
    assert(seq![source_header].first() == source_header);
    lemma_headers_distinct(source_header);
    let st3 = step_line(st2, source_header);
    assert(run_lines(Seq::<Seq<char>>::empty(), st3) == st3);
    assert(run_lines(seq![source_header], st2) == st3);
    assert(st3.section == Section::Sources);
    assert(st3.sinks == st2.sinks);
    assert(st3.sources =~= Seq::<(i32, Seq<char>)>::empty());

    lemma_run_data_rows(source_rows, st3);
    let st4 = run_lines(source_rows, st3);
    assert(st4.sources =~= row_devices(source_rows));
    assert(run_lines(lines, st0) == st4);
}

/// For all well-formed status text: its lines are a sink header, a run of
/// data rows, a source header, then another run of data rows; parsing the
/// text yields exactly those rows' devices, in their original order.
pub proof fn lemma_parse_status_well_formed(
    text: Seq<char>,
    sink_header: Seq<char>,
    sink_rows: Seq<Seq<char>>,
    source_header: Seq<char>,
    source_rows: Seq<Seq<char>>,
)
    requires
        spec_lines(text) == seq![sink_header] + sink_rows + seq![source_header] + source_rows,
        is_sinks_header(sink_header),
        is_sources_header(source_header),
        forall|i: int| 0 <= i < sink_rows.len() ==> is_data_row(#[trigger] sink_rows[i]),
        forall|i: int| 0 <= i < source_rows.len() ==> is_data_row(#[trigger] source_rows[i]),
    ensures
        spec_parse_status(text).sinks == row_devices(sink_rows),
        spec_parse_status(text).sources == row_devices(source_rows),
        spec_parse_status(text).sinks.len() == sink_rows.len(),
        spec_parse_status(text).sources.len() == source_rows.len(),
{
    lemma_parse_well_formed(
        spec_lines(text),
        sink_header,
        sink_rows,
        source_header,
        source_rows,
    );
}

/// A branch marker that is not a section header leaves all sections: the
/// line after it contributes no device, whatever it holds.
pub proof fn lemma_branch_resets_section(st: ParseState, marker: Seq<char>, row: Seq<char>)
    requires
        is_branch_line(marker),
        !is_sinks_header(marker),
        !is_sources_header(marker),
    ensures
        run_lines(seq![marker, row], st).sinks == st.sinks,
        run_lines(seq![marker, row], st).sources == st.sources,
{
    let st1 = step_line(st, marker);
    assert(st1.section == Section::Outside);
    assert(st1.sinks == st.sinks && st1.sources == st.sources);
    let st2 = step_line(st1, row);
    assert(st2.sinks == st.sinks && st2.sources == st.sources);
    assert(seq![marker, row].first() == marker);
    assert(seq![marker, row].drop_first() =~= seq![row]);
    assert(seq![row].drop_first() =~= Seq::<Seq<char>>::empty());
    assert(seq![row].first() == row);
    assert(run_lines(Seq::<Seq<char>>::empty(), st2) == st2);
    assert(run_lines(seq![row], st1) == st2);
    assert(run_lines(seq![marker, row], st) == st2);
}

/// `v` with one layer of surrounding double quotes removed, if both are
/// present.
pub open spec fn strip_quotes(v: Seq<char>) -> Seq<char> {
    if v.len() >= 2 && v.first() == '"' && v.last() == '"' {
        v.subrange(1, v.len() - 1)
    } else {
        v
    }
}

fn strip_quotes_str<'a>(v: &'a str) -> (r: &'a str)
    ensures
        r@ == strip_quotes(v@),
{
    let len = v.unicode_len();
    if len >= 2 && v.get_char(0) == '"' && v.get_char(len - 1) == '"' {
        v.substring_char(1, len - 1)
    } else {
        v
    }
}

/// The node name one inspection line yields: the trimmed line must start
/// with the key `node.name` and hold an `=`; the value after the `=` is
/// trimmed and unquoted, and must be non-empty.
pub open spec fn spec_inspect_line_value(l: Seq<char>) -> Option<Seq<char>> {
    let t = spec_trim(l);
    if !starts_with(t, "node.name"@) {
        None
    } else {
        match find_char_from(t, '=', 0) {
            None => None,
            Some(eq) => {
                let v = strip_quotes(spec_trim(t.subrange(eq + 1, t.len() as int)));
                if v.len() == 0 {
                    None
                } else {
                    Some(v)
                }
            },
        }
    }
}

/// The value of the first inspection line that yields one.
pub open spec fn spec_find_node_name(lines: Seq<Seq<char>>) -> Option<Seq<char>>
    decreases lines.len(),
{
    if lines.len() == 0 {
        None
    } else {
        match spec_inspect_line_value(lines.first()) {
            Some(v) => Some(v),
            None => spec_find_node_name(lines.drop_first()),
        }
    }
}

/// Scan a per-device inspection report for its `node.name` property; lines
/// without an `=` or with an empty value are passed over.
pub fn parse_node_name_from_inspect(text: &str) -> (r: Option<String>)
    ensures
        match r {
            Some(v) => spec_find_node_name(spec_lines(text@)) == Some(v@),
            None => spec_find_node_name(spec_lines(text@)) is None,
        },
{
    let lines = split_lines(text);
    let n = lines.len();
    let mut i: usize = 0;
    proof {
        assert(lines.deep_view().skip(0) =~= lines.deep_view());
    }
    while i < n
        invariant
            0 <= i <= n,
            n == lines@.len(),
            lines.deep_view() == spec_lines(text@),
            spec_find_node_name(lines.deep_view().skip(i as int)) == spec_find_node_name(
                spec_lines(text@),
            ),
        decreases n - i,
    {
        let ghost lv = lines.deep_view()[i as int];
        proof {
            assert(lv == lines@[i as int]@);
            assert(lines.deep_view().skip(i as int).first() == lv);
            assert(lines.deep_view().skip(i as int).drop_first() =~= lines.deep_view().skip(
                i + 1,
            ));
        }
        let t = trim_str(lines[i].as_str());
        if str_starts_with(t, "node.name") {
            let tlen = t.unicode_len();
            match str_find_char(t, '=') {
                Some(eq) => {
                    let v = strip_quotes_str(trim_str(t.substring_char(eq + 1, tlen)));
                    if !v.is_empty() {
                        return Some(v.to_owned());
                    }
                },
                None => {},
            }
        }
        i = i + 1;
    }
    proof {
        assert(lines.deep_view().skip(n as int) =~= Seq::<Seq<char>>::empty());
    }
    None
}

/// The first index at or after `k` holding whitespace, or the length.
pub open spec fn find_space_from(s: Seq<char>, k: int) -> int
    decreases s.len() - k when 0 <= k <= s.len()
{
    if k >= s.len() {
        k
    } else if is_space(s[k]) {
        k
    } else {
        find_space_from(s, k + 1)
    }
}

/// A candidate row of the name-mode status report: the integer identifier
/// before the first `.`, then the node name: the text after the `.` up to
/// any volume annotation, trimmed, cut at the first whitespace.
pub open spec fn spec_parse_name_row(l: Seq<char>) -> Option<(i32, Seq<char>)> {
    let row = spec_trim(strip_bars(remove_stars(spec_trim(l))));
    match find_char_from(row, '.', 0) {
        None => None,
        Some(dot) => {
            let id_part = spec_trim(row.subrange(0, dot));
            match spec_parse_i32(id_part) {
                None => None,
                Some(id) => {
                    let rest = spec_trim(row.subrange(dot + 1, row.len() as int));
                    let pre = match find_sub_from(rest, " [vol:"@, 0) {
                        Some(cut) => rest.subrange(0, cut),
                        None => rest,
                    };
                    let tok = spec_trim(pre);
                    Some((id, tok.subrange(0, find_space_from(tok, 0))))
                },
            }
        },
    }
}

fn parse_name_row(l: &str) -> (r: Option<(i32, String)>)
    ensures
        match r {
            Some(d) => spec_parse_name_row(l@) == Some((d.0, d.1@)),
            None => spec_parse_name_row(l@) is None,
        },
{
    let t0 = trim_str(l);
    let row0 = remove_stars_str(t0);
    let row1 = strip_bars_str(row0.as_str());
    let row = trim_str(row1);
    let rowlen = row.unicode_len();
    match str_find_char(row, '.') {
        None => None,
        Some(dot) => {
            let id_part = trim_str(row.substring_char(0, dot));
            match parse_i32_str(id_part) {
                None => None,
                Some(id) => {
                    let rest = trim_str(row.substring_char(dot + 1, rowlen));
                    let restlen = rest.unicode_len();
                    let pre = match str_find_sub(rest, " [vol:") {
                        Some(cut) => rest.substring_char(0, cut),
                        None => rest,
                    };
                    let tok = trim_str(pre);
                    let toklen = tok.unicode_len();
                    let mut sp: usize = 0;
                    while sp < toklen && !is_space_char(tok.get_char(sp))
                        invariant
                            0 <= sp <= toklen,
                            toklen == tok@.len(),
                            find_space_from(tok@, 0) == find_space_from(tok@, sp as int),
                        decreases toklen - sp,
                    {
                        sp = sp + 1;
                    }
                    assert(sp == find_space_from(tok@, 0));
                    Some((id, tok.substring_char(0, sp).to_owned()))
                },
            }
        },
    }
}

/// The identifier of the first candidate row of the name-mode report whose
/// node name equals `name`, scanning from section state `sec`: a recognized
/// header enters its section, any other branch marker leaves all sections,
/// and only rows inside a section are candidates, exactly as in the
/// device-list scan.
pub open spec fn resolve_node_in_lines(
    lines: Seq<Seq<char>>,
    sec: Section,
    name: Seq<char>,
) -> Option<i32>
    decreases lines.len(),
{
    if lines.len() == 0 {
        None
    } else {
        let l = lines.first();
        if is_sinks_header(l) {
            resolve_node_in_lines(lines.drop_first(), Section::Sinks, name)
        } else if is_sources_header(l) {
            resolve_node_in_lines(lines.drop_first(), Section::Sources, name)
        } else if is_branch_line(l) {
            resolve_node_in_lines(lines.drop_first(), Section::Outside, name)
        } else if sec is Outside {
            resolve_node_in_lines(lines.drop_first(), sec, name)
        } else {
            match spec_parse_name_row(l) {
                Some(d) => if d.1 == name {
                    Some(d.0)
                } else {
                    resolve_node_in_lines(lines.drop_first(), sec, name)
                },
                None => resolve_node_in_lines(lines.drop_first(), sec, name),
            }
        }
    }
}

/// The identifier the name-mode report gives a node name: the first
/// candidate row inside a `Sinks:`/`Sources:` run whose extracted name
/// equals `name`.
pub open spec fn spec_resolve_node_id(lines: Seq<Seq<char>>, name: Seq<char>) -> Option<i32> {
    resolve_node_in_lines(lines, Section::Outside, name)
}

/// Find the live identifier carrying a stable node name in the name-mode
/// status report; only rows inside a `Sinks:`/`Sources:` run are candidates.
pub fn resolve_id_by_node_name_in_status(text: &str, node_name: &str) -> (r: Option<i32>)
    ensures
        match r {
            Some(id) => spec_resolve_node_id(spec_lines(text@), node_name@) == Some(id),
            None => spec_resolve_node_id(spec_lines(text@), node_name@) is None,
        },
{
    let lines = split_lines(text);
    let n = lines.len();
    let mut section = Section::Outside;
    let mut i: usize = 0;
    proof {
        assert(lines.deep_view().skip(0) =~= lines.deep_view());
    }
    while i < n
        invariant
            0 <= i <= n,
            n == lines@.len(),
            lines.deep_view() == spec_lines(text@),
            resolve_node_in_lines(lines.deep_view().skip(i as int), section, node_name@)
                == spec_resolve_node_id(spec_lines(text@), node_name@),
        decreases n - i,
    {
        let ghost lv = lines.deep_view()[i as int];
        proof {
            assert(lv == lines@[i as int]@);
            assert(lines.deep_view().skip(i as int).first() == lv);
            assert(lines.deep_view().skip(i as int).drop_first() =~= lines.deep_view().skip(
                i + 1,
            ));
        }
        let t = trim_str(lines[i].as_str());
        if str_starts_with(t, "├─ Sinks:") || str_starts_with(t, "└─ Sinks:") {
            section = Section::Sinks;
        } else if str_starts_with(t, "├─ Sources:") || str_starts_with(t, "└─ Sources:") {
            section = Section::Sources;
        } else if str_starts_with(t, "├─ ") || str_starts_with(t, "└─ ") {
            section = Section::Outside;
        } else {
            let in_section = match section {
                Section::Outside => false,
                Section::Sinks => true,
                Section::Sources => true,
            };
            if in_section {
                match parse_name_row(lines[i].as_str()) {
                    Some(d) => {
                        if str_eq(d.1.as_str(), node_name) {
                            return Some(d.0);
                        }
                    },
                    None => {},
                }
            }
        }
        i = i + 1;
    }
    proof {
        assert(lines.deep_view().skip(n as int) =~= Seq::<Seq<char>>::empty());
    }
    None
}

} // verus!
