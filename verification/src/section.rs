use vstd::prelude::*;
use vstd::string::*;
use crate::event::MdEvent;
use crate::text::{
    trim_spec, trim_end_spec, is_ws, push_char, str_chars, range_has_prefix, range_eq_str,
    lemma_trim_empty_iff_all_ws, is_ws_char,
};

verus! {

// ---------------------------------------------------------------------------
// The extractor's states
// ---------------------------------------------------------------------------
/// What the extractor is currently accumulating.
#[derive(Debug, Clone, Copy, PartialEq, Eq, Structural)]
pub enum ParsingMode {
    /// Skipping content that precedes the section's own heading.
    WaitingForSectionStart,
    /// Accumulating rendered body text.
    Any,
    /// Accumulating the section's own title.
    Section,
    /// Accumulating a nested sub-section title (also echoed into the body).
    SubSection,
    /// Inside a fenced code sample; directive markers are rewritten.
    Code,
    /// Inside a typed-signature block; lines are appended without fences.
    TypeDeclaration,
}

/// The full state of one extraction: mode, list nesting, and the four
/// accumulators.
#[verifier::ext_equal]
pub struct SectionState {
    pub mode: ParsingMode,
    pub list_indent: int,
    pub name: Seq<char>,
    pub sub_name: Seq<char>,
    pub subs: Seq<Seq<char>>,
    pub body: Seq<char>,
}

/// One section of a document: its heading text, its rendered body, and the
/// names of its immediate sub-sections.
pub struct HelpSection {
    pub name: String,
    pub contents: String,
    pub sub_sections: Vec<String>,
}

// ---------------------------------------------------------------------------
// Rendering helpers for fenced code samples
// ---------------------------------------------------------------------------
/// The first index holding c, or the length when c does not occur.
pub open spec fn find_char(s: Seq<char>, c: char) -> int
    decreases s.len(),
{
    if s.len() == 0 {
        0
    } else if s[0] == c {
        0
    } else {
        1 + find_char(s.drop_first(), c)
    }
}

pub proof fn lemma_find_char_at(s: Seq<char>, c: char, k: int)
    requires
        0 <= k <= s.len(),
        forall|i: int| 0 <= i < k ==> s[i] != c,
        k < s.len() ==> s[k] == c,
    ensures
        find_char(s, c) == k,
    decreases s.len(),
{
    if s.len() > 0 && s[0] != c {
        assert(forall|i: int| 0 <= i < s.len() - 1 ==> s.drop_first()[i] == s[i + 1]);
        lemma_find_char_at(s.drop_first(), c, k - 1);
    }
}

/// The tag segment before the first comma of a fence's language tag.
pub open spec fn first_segment(s: Seq<char>) -> Seq<char> {
    s.take(find_char(s, ','))
}

/// The marker that replaces a leading "check! " directive in code samples.
pub open spec fn result_marker() -> Seq<char> {
    "# \u{279d} "@
}

/// A code-sample line with a leading "print! " marker removed.
pub open spec fn strip_print_marker(l: Seq<char>) -> Seq<char> {
    if l.len() >= "print! "@.len() && l.subrange(0, "print! "@.len() as int) == "print! "@ {
        l.skip("print! "@.len() as int)
    } else {
        l
    }
}

/// A code-sample line with a leading "check! " marker replaced by the
/// result arrow.
pub open spec fn replace_check_marker(l: Seq<char>) -> Seq<char> {
    if l.len() >= "check! "@.len() && l.subrange(0, "check! "@.len() as int) == "check! "@ {
        result_marker() + l.skip("check! "@.len() as int)
    } else {
        l
    }
}

pub open spec fn code_line_render(l: Seq<char>) -> Seq<char> {
    replace_check_marker(strip_print_marker(l))
}

/// A text run inside a code block, rendered line by line with a continuation
/// indent between lines.
pub open spec fn code_text_render(s: Seq<char>) -> Seq<char>
    decreases s.len(),
{
    let j = find_char(s, '\n');
    if j < 0 || j >= s.len() {
        code_line_render(s)
    } else {
        code_line_render(s.take(j)) + "\n "@ + code_text_render(s.skip(j + 1))
    }
}

/// Two spaces for each enclosing list level.
pub open spec fn indent_spaces(n: int) -> Seq<char>
    decreases n,
{
    if n <= 0 {
        Seq::empty()
    } else {
        "  "@ + indent_spaces(n - 1)
    }
}

proof fn lemma_indent_spaces_snoc(n: int)
    requires
        n > 0,
    ensures
        indent_spaces(n) == indent_spaces(n - 1) + "  "@,
    decreases n,
{
    if n > 1 {
        lemma_indent_spaces_snoc(n - 1);
        assert(("  "@ + indent_spaces(n - 2)) + "  "@ =~= "  "@ + (indent_spaces(n - 2)
            + "  "@));
    } else {
        assert(indent_spaces(1) =~= indent_spaces(0) + "  "@);
    }
}

// ---------------------------------------------------------------------------
// The state machine, one event at a time
// ---------------------------------------------------------------------------
/// Whether the extractor must stop before consuming this event: a heading
/// opens here that belongs to an enclosing or sibling section.
pub open spec fn stops_here(mode: ParsingMode, ev: MdEvent, level: u32, include_subs: bool) -> bool {
    match ev {
        MdEvent::HeadingStart { level: l } => {
            if mode is WaitingForSectionStart {
                l < level
            } else {
                l <= level || !include_subs
            }
        },
        _ => false,
    }
}

/// The state after consuming one event that is not a stop point.
pub open spec fn step(st: SectionState, ev: MdEvent, level: u32, include_subs: bool) -> SectionState {
    match ev {
        MdEvent::HeadingStart { level: l } => {
            if st.mode is WaitingForSectionStart {
                if l == level {
                    SectionState { mode: ParsingMode::Section, ..st }
                } else {
                    st
                }
            } else {
                SectionState {
                    mode: ParsingMode::SubSection,
                    sub_name: Seq::empty(),
                    body: st.body + "\n\n"@,
                    ..st
                }
            }
        },
        MdEvent::HeadingEnd => {
            SectionState {
                mode: ParsingMode::Any,
                subs: if st.mode is SubSection {
                    st.subs.push(st.sub_name)
                } else {
                    st.subs
                },
                ..st
            }
        },
        MdEvent::LinkStart { title, dest_url } => {
            SectionState { body: st.body + "["@ + title@ + "]("@ + dest_url@ + ")"@, ..st }
        },
        MdEvent::LinkEnd => st,
        MdEvent::ListStart => {
            SectionState {
                body: if st.list_indent == 0 {
                    st.body + "\n"@
                } else {
                    st.body
                },
                list_indent: st.list_indent + 1,
                ..st
            }
        },
        MdEvent::ListEnd => SectionState { list_indent: st.list_indent - 1, ..st },
        MdEvent::ItemStart => {
            SectionState { body: st.body + "\n"@ + indent_spaces(st.list_indent - 1) + "- "@, ..st }
        },
        MdEvent::ItemEnd => st,
        MdEvent::ParagraphStart => SectionState { body: st.body + "\n\n"@, ..st },
        MdEvent::ParagraphEnd => st,
        MdEvent::FencedCodeBlockStart { lang } => {
            SectionState {
                body: st.body + "\n```koto\n "@,
                mode: if first_segment(lang@) == "koto"@ {
                    ParsingMode::Code
                } else if first_segment(lang@) == "kototype"@ {
                    ParsingMode::TypeDeclaration
                } else {
                    st.mode
                },
                ..st
            }
        },
        MdEvent::CodeBlockEnd => {
            SectionState { body: st.body + "```\n"@, mode: ParsingMode::Any, ..st }
        },
        MdEvent::EmphasisStart => SectionState { body: st.body + "_"@, ..st },
        MdEvent::EmphasisEnd => SectionState { body: st.body + "_"@, ..st },
        MdEvent::StrongStart => SectionState { body: st.body + "*"@, ..st },
        MdEvent::StrongEnd => SectionState { body: st.body + "*"@, ..st },
        MdEvent::Text { text } => match st.mode {
            ParsingMode::WaitingForSectionStart => st,
            ParsingMode::Any => SectionState { body: st.body + text@, ..st },
            ParsingMode::Section => SectionState { name: st.name + text@, ..st },
            ParsingMode::SubSection => {
                SectionState { sub_name: st.sub_name + text@, body: st.body + text@, ..st }
            },
            ParsingMode::Code => SectionState { body: st.body + code_text_render(text@), ..st },
            ParsingMode::TypeDeclaration => {
                SectionState { body: st.body + trim_end_spec(text@) + "\n"@, ..st }
            },
        },
        MdEvent::Code { code } => match st.mode {
            ParsingMode::Section => SectionState { name: st.name + code@, ..st },
            ParsingMode::SubSection => {
                SectionState { sub_name: st.sub_name + code@, body: st.body + code@, ..st }
            },
            _ => SectionState { body: st.body + "`"@ + code@ + "`"@, ..st },
        },
        MdEvent::SoftBreak => SectionState { body: st.body + " "@, ..st },
        MdEvent::HardBreak => SectionState { body: st.body + "\n"@, ..st },
        MdEvent::Other => st,
    }
}

/// Runs the machine from position pos in state st until the stream ends or
/// a stop point is reached; yields the stop position and the final state.
pub open spec fn run_section(
    events: Seq<MdEvent>,
    pos: int,
    st: SectionState,
    level: u32,
    include_subs: bool,
) -> (int, SectionState)
    decreases events.len() - pos,
{
    if pos < 0 || pos >= events.len() {
        (pos, st)
    } else if stops_here(st.mode, events[pos], level, include_subs) {
        (pos, st)
    } else {
        run_section(events, pos + 1, step(st, events[pos], level, include_subs), level,
            include_subs)
    }
}

/// The state a fresh extraction starts from; the body begins with the
/// two-space help indent.
pub open spec fn init_section_state() -> SectionState {
    SectionState {
        mode: ParsingMode::WaitingForSectionStart,
        list_indent: 0,
        name: Seq::empty(),
        sub_name: Seq::empty(),
        subs: Seq::empty(),
        body: "  "@,
    }
}

/// One whole extraction starting at pos: where it stops and what it found.
pub open spec fn section_at(events: Seq<MdEvent>, pos: int, level: u32, include_subs: bool) -> (
    int,
    SectionState,
) {
    run_section(events, pos, init_section_state(), level, include_subs)
}

pub proof fn lemma_run_section_bounds(
    events: Seq<MdEvent>,
    pos: int,
    st: SectionState,
    level: u32,
    include_subs: bool,
)
    requires
        0 <= pos <= events.len(),
    ensures
        pos <= run_section(events, pos, st, level, include_subs).0 <= events.len(),
        run_section(events, pos, st, level, include_subs).0 == pos ==> run_section(
            events,
            pos,
            st,
            level,
            include_subs,
        ).1 == st,
    decreases events.len() - pos,
{
    if pos < events.len() && !stops_here(st.mode, events[pos], level, include_subs) {
        lemma_run_section_bounds(events, pos + 1, step(st, events[pos], level, include_subs),
            level, include_subs);
    }
}

/// An extraction that consumes no events yields a body that trims to the
/// empty string: the sentinel that tells a caller no further sibling
/// sections remain.
pub proof fn lemma_no_progress_blank(events: Seq<MdEvent>, pos: int, level: u32, include_subs: bool)
    requires
        0 <= pos <= events.len(),
    ensures
        section_at(events, pos, level, include_subs).0 == pos ==> trim_spec(
            section_at(events, pos, level, include_subs).1.body,
        ).len() == 0,
{
    lemma_run_section_bounds(events, pos, init_section_state(), level, include_subs);
    if section_at(events, pos, level, include_subs).0 == pos {
        let b = section_at(events, pos, level, include_subs).1.body;
        assert(b == "  "@);
        reveal_strlit("  ");
        assert(b.len() == 2 && b[0] == ' ' && b[1] == ' ');
        assert(forall|i: int| 0 <= i < b.len() ==> #[trigger] is_ws(b[i]));
        lemma_trim_empty_iff_all_ws(b);
    }
}

// ---------------------------------------------------------------------------
// Executable rendering of code-sample text
// ---------------------------------------------------------------------------
fn find_char_exec(cs: &Vec<char>, from: usize, c: char) -> (r: usize)
    requires
        from <= cs@.len(),
    ensures
        from <= r <= cs@.len(),
        r - from == find_char(cs@.skip(from as int), c),
        r < cs@.len() ==> cs@[r as int] == c,
        forall|i: int| from <= i < r ==> cs@[i] != c,
{
    let n = cs.len();
    let mut j = from;
    while j < n && cs[j] != c
        invariant
            from <= j <= n == cs@.len(),
            forall|i: int| from <= i < j ==> cs@[i] != c,
        decreases n - j,
    {
        j += 1;
    }
    proof {
        let suffix = cs@.skip(from as int);
        assert(forall|i: int| 0 <= i < suffix.len() ==> suffix[i] == cs@[from + i]);
        lemma_find_char_at(suffix, c, j - from as int);
    }
    j
}

/// One line of a code sample: a leading "print! " marker is stripped, then a
/// leading "check! " marker is replaced by the result arrow.
fn process_code_line(cs: &Vec<char>, start: usize, end: usize) -> (r: String)
    requires
        start <= end <= cs@.len(),
    ensures
        r@ == code_line_render(cs@.subrange(start as int, end as int)),
{
    let ghost l = cs@.subrange(start as int, end as int);
    let mut s = start;
    if range_has_prefix(cs, s, end, "print! ") {
        proof {
            assert(l.subrange(0, "print! "@.len() as int) =~= cs@.subrange(
                start as int,
                start + "print! "@.len() as int,
            ));
        }
        s = s + "print! ".unicode_len();
    } else {
        proof {
            if l.len() >= "print! "@.len() {
                assert(l.subrange(0, "print! "@.len() as int) =~= cs@.subrange(
                    start as int,
                    start + "print! "@.len() as int,
                ));
            }
        }
    }
    let ghost l2 = strip_print_marker(l);
    proof {
        assert(l2 =~= cs@.subrange(s as int, end as int));
    }
    let mut out: String;
    let mut t = s;
    let ghost replaced: bool;
    if range_has_prefix(cs, s, end, "check! ") {
        proof {
            assert(l2.subrange(0, "check! "@.len() as int) =~= cs@.subrange(
                s as int,
                s + "check! "@.len() as int,
            ));
            replaced = true;
        }
        out = String::from_str("# \u{279d} ");
        t = s + "check! ".unicode_len();
    } else {
        proof {
            if l2.len() >= "check! "@.len() {
                assert(l2.subrange(0, "check! "@.len() as int) =~= cs@.subrange(
                    s as int,
                    s + "check! "@.len() as int,
                ));
            }
            replaced = false;
        }
        out = String::new();
    }
    let ghost built = out@;
    let mut i = t;
    while i < end
        invariant
            t <= i <= end <= cs@.len(),
            out@ == built + cs@.subrange(t as int, i as int),
        decreases end - i,
    {
        push_char(&mut out, cs[i]);
        i += 1;
        assert(out@ =~= built + cs@.subrange(t as int, i as int));
    }
    proof {
        if replaced {
            assert(cs@.subrange(t as int, end as int) =~= l2.skip("check! "@.len() as int));
            assert(out@ =~= result_marker() + l2.skip("check! "@.len() as int));
        } else {
            assert(cs@.subrange(t as int, end as int) =~= l2);
            assert(out@ =~= l2);
        }
    }
    out
}

/// Code-sample text from position start on, rendered line by line.
fn process_code_from(cs: &Vec<char>, start: usize) -> (r: String)
    requires
        start <= cs@.len(),
    ensures
        r@ == code_text_render(cs@.skip(start as int)),
    decreases cs@.len() - start,
{
    let ghost suffix = cs@.skip(start as int);
    let j = find_char_exec(cs, start, '\n');
    let line = process_code_line(cs, start, j);
    if j >= cs.len() {
        proof {
            assert(find_char(suffix, '\n') == suffix.len() as int);
            assert(cs@.subrange(start as int, j as int) =~= suffix);
        }
        line
    } else {
        let mut out = line;
        out.append("\n ");
        let rest = process_code_from(cs, j + 1);
        out.append(rest.as_str());
        proof {
            let fj = find_char(suffix, '\n');
            assert(fj == j - start && 0 <= fj < suffix.len());
            assert(suffix.take(fj) =~= cs@.subrange(start as int, j as int));
            assert(suffix.skip(fj + 1) =~= cs@.skip(j + 1 as int));
        }
        out
    }
}

/// A text run inside a fenced code sample, rendered with rewritten
/// directive markers and continuation indents.
pub fn process_code_text(text: &str) -> (r: String)
    ensures
        r@ == code_text_render(text@),
{
    let cs = str_chars(text);
    proof {
        assert(cs@.skip(0) =~= text@);
    }
    process_code_from(&cs, 0)
}

/// The trailing-whitespace-trimmed copy of a text run, for typed-signature
/// blocks.
fn trim_end_exec(text: &str) -> (r: String)
    ensures
        r@ == trim_end_spec(text@),
{
    let cs = str_chars(text);
    let n = cs.len();
    let mut b: usize = n;
    while b > 0 && is_ws_char(cs[b - 1])
        invariant
            b <= n == cs@.len(),
            forall|i: int| b <= i < n ==> is_ws(cs@[i]),
        decreases b,
    {
        b -= 1;
    }
    proof {
        crate::text::lemma_trim_end_ws_suffix(cs@, n - b as int);
        lemma_trim_end_clean(cs@.take(b as int));
    }
    let mut out = String::new();
    let mut i: usize = 0;
    while i < b
        invariant
            i <= b <= cs@.len(),
            out@ == cs@.subrange(0, i as int),
        decreases b - i,
    {
        push_char(&mut out, cs[i]);
        i += 1;
        assert(out@ =~= cs@.subrange(0, i as int));
    }
    proof {
        assert(cs@.subrange(0, b as int) =~= cs@.take(b as int));
    }
    out
}

proof fn lemma_trim_end_clean(s: Seq<char>)
    requires
        s.len() == 0 || !is_ws(s.last()),
    ensures
        trim_end_spec(s) == s,
{
}

// ---------------------------------------------------------------------------
// The extractor
// ---------------------------------------------------------------------------
/// Consumes one section of a markdown event stream: everything from the next
/// heading at `level_to_consume` up to (not including) the heading that opens
/// a sibling or enclosing section. `pos` is left exactly past the consumed
/// prefix, so repeated calls walk a document without overlap or loss.
///
/// When `include_sub_sections` is set, headings one level deeper do not stop
/// the extraction: their titles are collected as sub-section names and echoed
/// into the body. When a module name is supplied, the section's name is
/// rewritten to "module.name".
pub fn consume_help_section(
    events: &Vec<MdEvent>,
    pos: &mut usize,
    module_name: Option<&str>,
    level_to_consume: u32,
    include_sub_sections: bool,
) -> (r: HelpSection)
    requires
        *old(pos) <= events@.len(),
    ensures
        ({
            let (end, st) = section_at(
                events@,
                *old(pos) as int,
                level_to_consume,
                include_sub_sections,
            );
            &&& *final(pos) == end
            &&& r.contents@ == st.body
            &&& r.sub_sections.deep_view() == st.subs
            &&& (match module_name {
                Some(m) => r.name@ == m@ + "."@ + st.name,
                None => r.name@ == st.name,
            })
        }),
{
    let ghost pos0 = *pos as int;
    let mut p: usize = *pos;
    let mut mode = ParsingMode::WaitingForSectionStart;
    let mut list_indent: i128 = 0;
    let mut section_name = String::new();
    let mut sub_section_name = String::new();
    let mut sub_sections: Vec<String> = Vec::new();
    let mut result = String::new();
    result.append("  ");
    proof {
        assert(Seq::<char>::empty() + "  "@ =~= "  "@);
        let st0 = SectionState {
            mode: mode,
            list_indent: list_indent as int,
            name: section_name@,
            sub_name: sub_section_name@,
            subs: sub_sections.deep_view(),
            body: result@,
        };
        assert(sub_sections.deep_view() =~~= Seq::<Seq<char>>::empty());
        assert(st0 =~~= init_section_state());
    }
    loop
        invariant
            0 <= pos0 <= p <= events@.len(),
            -(p as int) <= list_indent as int <= p as int,
            run_section(events@, pos0, init_section_state(), level_to_consume,
                include_sub_sections) == run_section(
                events@,
                p as int,
                (SectionState {
                    mode: mode,
                    list_indent: list_indent as int,
                    name: section_name@,
                    sub_name: sub_section_name@,
                    subs: sub_sections.deep_view(),
                    body: result@,
                }),
                level_to_consume,
                include_sub_sections,
            ),
        ensures
            run_section(events@, pos0, init_section_state(), level_to_consume,
                include_sub_sections) == ((
                p as int,
                SectionState {
                    mode: mode,
                    list_indent: list_indent as int,
                    name: section_name@,
                    sub_name: sub_section_name@,
                    subs: sub_sections.deep_view(),
                    body: result@,
                },
            )),
        decreases events@.len() - p,
    {
        let ghost st_before = SectionState {
            mode: mode,
            list_indent: list_indent as int,
            name: section_name@,
            sub_name: sub_section_name@,
            subs: sub_sections.deep_view(),
            body: result@,
        };
        if p >= events.len() {
            proof {
                assert(run_section(events@, p as int, st_before, level_to_consume,
                    include_sub_sections) == (p as int, st_before));
            }
            break;
        }
        let ev = &events[p];
        let stop = match ev {
            MdEvent::HeadingStart { level } => {
                if matches!(mode, ParsingMode::WaitingForSectionStart) {
                    *level < level_to_consume
                } else {
                    *level <= level_to_consume || !include_sub_sections
                }
            },
            _ => false,
        };
        if stop {
            proof {
                assert(stops_here(st_before.mode, events@[p as int], level_to_consume,
                    include_sub_sections));
                assert(run_section(events@, p as int, st_before, level_to_consume,
                    include_sub_sections) == (p as int, st_before));
            }
            break;
        }
        proof {
            assert(!stops_here(st_before.mode, events@[p as int], level_to_consume,
                include_sub_sections));
        }
        match ev {
            MdEvent::HeadingStart { level } => {
                if matches!(mode, ParsingMode::WaitingForSectionStart) {
                    if *level == level_to_consume {
                        mode = ParsingMode::Section;
                    }
                } else {
                    mode = ParsingMode::SubSection;
                    sub_section_name = String::new();
                    result.append("\n\n");
                }
            },
            MdEvent::HeadingEnd => {
                if matches!(mode, ParsingMode::SubSection) {
                    sub_sections.push(sub_section_name.clone());
                    proof {
                        assert(sub_sections.deep_view() =~= st_before.subs.push(
                            st_before.sub_name,
                        ));
                    }
                }
                mode = ParsingMode::Any;
            },
            MdEvent::LinkStart { title, dest_url } => {
                result.append("[");
                result.append(title.as_str());
                result.append("](");
                result.append(dest_url.as_str());
                result.append(")");
            },
            MdEvent::LinkEnd => {},
            MdEvent::ListStart => {
                if list_indent == 0 {
                    result.append("\n");
                }
                list_indent = list_indent + 1;
            },
            MdEvent::ListEnd => {
                list_indent = list_indent - 1;
            },
            MdEvent::ItemStart => {
                result.append("\n");
                let ghost base = result@;
                let mut k: i128 = 1;
                while k < list_indent
                    invariant
                        1 <= k,
                        k <= list_indent || k == 1,
                        list_indent <= p as int <= events@.len(),
                        result@ == base + indent_spaces(k - 1),
                    decreases list_indent - k,
                {
                    result.append("  ");
                    proof {
                        lemma_indent_spaces_snoc(k as int);
                        assert((base + indent_spaces(k - 1)) + "  "@ =~= base + indent_spaces(
                            k as int,
                        ));
                    }
                    k += 1;
                }
                proof {
                    if list_indent < 1 {
                        assert(indent_spaces(list_indent as int - 1) =~= Seq::<char>::empty());
                        assert(base + indent_spaces(list_indent as int - 1) =~= base);
                    }
                    assert(result@ == base + indent_spaces(list_indent as int - 1));
                }
                result.append("- ");
                proof {
                    assert((st_before.body + "\n"@) + indent_spaces(st_before.list_indent - 1)
                        + "- "@ =~= st_before.body + "\n"@ + indent_spaces(
                        st_before.list_indent - 1,
                    ) + "- "@);
                }
            },
            MdEvent::ItemEnd => {},
            MdEvent::ParagraphStart => {
                result.append("\n\n");
            },
            MdEvent::ParagraphEnd => {},
            MdEvent::FencedCodeBlockStart { lang } => {
                result.append("\n```koto\n ");
                let lc = str_chars(lang.as_str());
                let j = find_char_exec(&lc, 0, ',');
                proof {
                    assert(lc@.skip(0) =~= lang@);
                    assert(lc@.subrange(0, j as int) =~= first_segment(lang@));
                }
                if range_eq_str(&lc, 0, j, "koto") {
                    mode = ParsingMode::Code;
                } else if range_eq_str(&lc, 0, j, "kototype") {
                    mode = ParsingMode::TypeDeclaration;
                }
            },
            MdEvent::CodeBlockEnd => {
                result.append("```\n");
                mode = ParsingMode::Any;
            },
            MdEvent::EmphasisStart => {
                result.append("_");
            },
            MdEvent::EmphasisEnd => {
                result.append("_");
            },
            MdEvent::StrongStart => {
                result.append("*");
            },
            MdEvent::StrongEnd => {
                result.append("*");
            },
            MdEvent::Text { text } => {
                match mode {
                    ParsingMode::WaitingForSectionStart => {},
                    ParsingMode::Any => {
                        result.append(text.as_str());
                    },
                    ParsingMode::Section => {
                        section_name.append(text.as_str());
                    },
                    ParsingMode::SubSection => {
                        sub_section_name.append(text.as_str());
                        result.append(text.as_str());
                    },
                    ParsingMode::Code => {
                        let rendered = process_code_text(text.as_str());
                        result.append(rendered.as_str());
                    },
                    ParsingMode::TypeDeclaration => {
                        let trimmed = trim_end_exec(text.as_str());
                        result.append(trimmed.as_str());
                        result.append("\n");
                    },
                }
            },
            MdEvent::Code { code } => {
                match mode {
                    ParsingMode::Section => {
                        section_name.append(code.as_str());
                    },
                    ParsingMode::SubSection => {
                        sub_section_name.append(code.as_str());
                        result.append(code.as_str());
                    },
                    _ => {
                        result.append("`");
                        result.append(code.as_str());
                        result.append("`");
                    },
                }
            },
            MdEvent::SoftBreak => {
                result.append(" ");
            },
            MdEvent::HardBreak => {
                result.append("\n");
            },
            MdEvent::Other => {},
        }
        proof {
            let st_after = SectionState {
                mode: mode,
                list_indent: list_indent as int,
                name: section_name@,
                sub_name: sub_section_name@,
                subs: sub_sections.deep_view(),
                body: result@,
            };
            assert(st_after =~~= step(st_before, events@[p as int], level_to_consume,
                include_sub_sections));
            assert(run_section(events@, p as int, st_before, level_to_consume,
                include_sub_sections) == run_section(
                events@,
                p + 1 as int,
                step(st_before, events@[p as int], level_to_consume, include_sub_sections),
                level_to_consume,
                include_sub_sections,
            ));
        }
        p += 1;
    }
    *pos = p;
    let name = match module_name {
        Some(m) => {
            let mut n = String::from_str(m);
            n.append(".");
            n.append(section_name.as_str());
            n
        },
        None => section_name,
    };
    HelpSection { name, contents: result, sub_sections }
}

} // verus!
