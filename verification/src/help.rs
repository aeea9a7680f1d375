use vstd::prelude::*;
use vstd::string::*;
use indexmap::IndexMap;
use crate::entry::{EntryModel, HelpEntry};
use crate::event::MdEvent;
use crate::imap::{imap_get, imap_get_index, imap_insert, imap_len, imap_new, index_map_model};
use crate::section::{
    consume_help_section, section_at, HelpSection, SectionState, lemma_no_progress_blank,
    lemma_run_section_bounds,
};
use crate::text::{
    contains_seq, contains_sub, is_blank, key_of, push_char, text_to_key, trim_spec, to_upper,
    is_ws, lemma_key_of_upper_padded,
};

verus! {

// ---------------------------------------------------------------------------
// The index model
// ---------------------------------------------------------------------------
/// No two entries share a key.
pub open spec fn keys_unique(m: Seq<(Seq<char>, EntryModel)>) -> bool {
    forall|i: int, j: int|
        0 <= i < j < m.len() ==> (#[trigger] m[i].0) != (#[trigger] m[j].0)
}

/// A well-formed index: keys are unique and each entry sits under the
/// normalized key of its own display name.
pub open spec fn model_wf(m: Seq<(Seq<char>, EntryModel)>) -> bool {
    &&& keys_unique(m)
    &&& forall|i: int| 0 <= i < m.len() ==> (#[trigger] m[i].0) == key_of(m[i].1.name)
}

/// Every entry's display name is non-empty: the index invariant that
/// well-formed source documents establish at construction.
pub open spec fn names_nonempty(m: Seq<(Seq<char>, EntryModel)>) -> bool {
    forall|i: int| 0 <= i < m.len() ==> (#[trigger] m[i].1).name.len() > 0
}

pub open spec fn model_has_key(m: Seq<(Seq<char>, EntryModel)>, k: Seq<char>) -> bool {
    exists|i: int| 0 <= i < m.len() && (#[trigger] m[i].0) == k
}

pub open spec fn model_key_index(m: Seq<(Seq<char>, EntryModel)>, k: Seq<char>) -> int {
    choose|i: int| 0 <= i < m.len() && (#[trigger] m[i].0) == k
}

/// Insertion with overwrite-in-place: a present key keeps its position and
/// gets the new entry; a new key goes last.
pub open spec fn model_insert(
    m: Seq<(Seq<char>, EntryModel)>,
    k: Seq<char>,
    v: EntryModel,
) -> Seq<(Seq<char>, EntryModel)> {
    if model_has_key(m, k) {
        m.update(model_key_index(m, k), (k, v))
    } else {
        m.push((k, v))
    }
}

proof fn lemma_update_is_model_insert(
    m: Seq<(Seq<char>, EntryModel)>,
    i: int,
    k: Seq<char>,
    v: EntryModel,
)
    requires
        keys_unique(m),
        0 <= i < m.len(),
        m[i].0 == k,
    ensures
        model_insert(m, k, v) == m.update(i, (k, v)),
{
    assert(model_has_key(m, k));
    let j = model_key_index(m, k);
    assert(0 <= j < m.len() && m[j].0 == k);
    if i < j {
        assert(m[i].0 != m[j].0);
    } else if j < i {
        assert(m[j].0 != m[i].0);
    }
}

/// Inserting an entry under the key of its own name keeps the index
/// well formed.
proof fn lemma_model_insert_wf(m: Seq<(Seq<char>, EntryModel)>, k: Seq<char>, v: EntryModel)
    requires
        model_wf(m),
        k == key_of(v.name),
    ensures
        model_wf(model_insert(m, k, v)),
{
    if model_has_key(m, k) {
        let i = model_key_index(m, k);
        let m2 = m.update(i, (k, v));
        assert forall|a: int, b: int| 0 <= a < b < m2.len() implies (#[trigger] m2[a].0)
            != (#[trigger] m2[b].0) by {
            assert(m[a].0 != m[b].0);
        }
    } else {
        let m2 = m.push((k, v));
        assert forall|a: int, b: int| 0 <= a < b < m2.len() implies (#[trigger] m2[a].0)
            != (#[trigger] m2[b].0) by {
            if b == m.len() {
                assert(m2[a].0 == m[a].0);
                assert(!(m[a].0 == k));
            } else {
                assert(m[a].0 != m[b].0);
            }
        }
    }
}

// ---------------------------------------------------------------------------
// What the builders produce
// ---------------------------------------------------------------------------
/// The normalized keys of a list of sub-section names.
pub open spec fn keys_of(ss: Seq<Seq<char>>) -> Seq<Seq<char>> {
    ss.map_values(|s: Seq<char>| key_of(s))
}

/// The entry a guide topic or a module overview becomes.
pub open spec fn topic_entry(st: SectionState) -> EntryModel {
    EntryModel { name: st.name, help: st.body, keywords: Seq::empty() }
}

/// The entry a guide sub-topic becomes: its sub-section names, normalized,
/// serve as extra search keywords.
pub open spec fn sub_topic_entry(st: SectionState) -> EntryModel {
    EntryModel { name: st.name, help: st.body, keywords: keys_of(st.subs) }
}

/// The entry a reference module entry becomes, named "module.entry".
pub open spec fn ref_entry(module: Seq<char>, st: SectionState) -> EntryModel {
    EntryModel { name: module + "."@ + st.name, help: st.body, keywords: Seq::empty() }
}

/// Repeated level-3 extraction until the blank-body sentinel: the sub-topics
/// of one guide topic.
pub open spec fn sub_topics_at(events: Seq<MdEvent>, pos: int) -> (int, Seq<SectionState>)
    decreases events.len() - pos,
{
    let (p2, st) = section_at(events, pos, 3, true);
    if trim_spec(st.body).len() == 0 {
        (p2, Seq::empty())
    } else if !(pos < p2 <= events.len()) {
        // unreachable: a non-blank body means events were consumed
        (p2, Seq::empty())
    } else {
        let r = sub_topics_at(events, p2);
        (r.0, seq![st] + r.1)
    }
}

pub open spec fn insert_sub_topics(
    m: Seq<(Seq<char>, EntryModel)>,
    subs: Seq<SectionState>,
) -> Seq<(Seq<char>, EntryModel)>
    decreases subs.len(),
{
    if subs.len() == 0 {
        m
    } else {
        insert_sub_topics(
            model_insert(m, key_of(subs[0].name), sub_topic_entry(subs[0])),
            subs.drop_first(),
        )
    }
}

/// One round per guide topic: the topic entry, then its sub-topic entries,
/// and the topic's name appended to the topic listing.
pub open spec fn guide_rounds(
    events: Seq<MdEvent>,
    pos: int,
    m: Seq<(Seq<char>, EntryModel)>,
    topics: Seq<Seq<char>>,
) -> (Seq<(Seq<char>, EntryModel)>, Seq<Seq<char>>)
    decreases events.len() - pos,
{
    if pos < 0 || pos >= events.len() {
        (m, topics)
    } else {
        let (p2, topic) = section_at(events, pos, 2, false);
        let (p3, subs) = sub_topics_at(events, p2);
        let m1 = model_insert(m, key_of(topic.name), topic_entry(topic));
        let m2 = insert_sub_topics(m1, subs);
        let topics1 = topics.push(topic.name);
        if pos < p3 <= events.len() {
            guide_rounds(events, p3, m2, topics1)
        } else {
            // unreachable for streams the extractor advances through
            (m2, topics1)
        }
    }
}

/// A whole guide document: the introduction is skipped, then topics are
/// collected until the stream is exhausted.
pub open spec fn guide_outcome(
    events: Seq<MdEvent>,
    m: Seq<(Seq<char>, EntryModel)>,
    topics: Seq<Seq<char>>,
) -> (Seq<(Seq<char>, EntryModel)>, Seq<Seq<char>>) {
    let (p1, intro) = section_at(events, 0, 1, false);
    guide_rounds(events, p1, m, topics)
}

/// A structurally well-formed guide document: every topic and every
/// collected sub-topic carries a named heading. A violation is a defect in
/// the source content, detectable during construction.
pub open spec fn guide_rounds_wf(events: Seq<MdEvent>, pos: int) -> bool
    decreases events.len() - pos,
{
    if pos < 0 || pos >= events.len() {
        true
    } else {
        let (p2, topic) = section_at(events, pos, 2, false);
        let (p3, subs) = sub_topics_at(events, p2);
        &&& topic.name.len() > 0
        &&& forall|i: int| 0 <= i < subs.len() ==> (#[trigger] subs[i]).name.len() > 0
        &&& if pos < p3 <= events.len() {
            guide_rounds_wf(events, p3)
        } else {
            true
        }
    }
}

pub open spec fn guide_doc_wf(events: Seq<MdEvent>) -> bool {
    guide_rounds_wf(events, section_at(events, 0, 1, false).0)
}

/// A structurally well-formed reference document: the level-1 module header
/// carries a name. Entry names are "module.entry" and so are never empty.
pub open spec fn reference_doc_wf(events: Seq<MdEvent>) -> bool {
    section_at(events, 0, 1, false).1.name.len() > 0
}

/// One round per reference module entry, each keyed "module.entry".
pub open spec fn reference_rounds(
    events: Seq<MdEvent>,
    pos: int,
    module: Seq<char>,
    m: Seq<(Seq<char>, EntryModel)>,
) -> (int, Seq<(Seq<char>, EntryModel)>)
    decreases events.len() - pos,
{
    if pos < 0 || pos >= events.len() {
        (pos, m)
    } else {
        let (p2, st) = section_at(events, pos, 2, true);
        let m1 = model_insert(m, key_of(module + "."@ + st.name), ref_entry(module, st));
        if pos < p2 <= events.len() {
            reference_rounds(events, p2, module, m1)
        } else {
            // unreachable for streams the extractor advances through
            (p2, m1)
        }
    }
}

/// A whole reference document: the module header, every entry, and, when the
/// header has body content, the module overview entry; also the module name.
pub open spec fn reference_outcome(events: Seq<MdEvent>, m: Seq<(Seq<char>, EntryModel)>) -> (
    Seq<(Seq<char>, EntryModel)>,
    Seq<char>,
) {
    let (p1, head) = section_at(events, 0, 1, false);
    let (p2, m1) = reference_rounds(events, p1, head.name, m);
    let m2 = if trim_spec(head.body).len() != 0 {
        model_insert(m1, key_of(head.name), topic_entry(head))
    } else {
        m1
    };
    (m2, head.name)
}

/// A sequence of reference documents, each adding its entries and its module
/// name.
pub open spec fn add_references(
    docs: Seq<Vec<MdEvent>>,
    m: Seq<(Seq<char>, EntryModel)>,
    names: Seq<Seq<char>>,
) -> (Seq<(Seq<char>, EntryModel)>, Seq<Seq<char>>)
    decreases docs.len(),
{
    if docs.len() == 0 {
        (m, names)
    } else {
        let r = reference_outcome(docs[0]@, m);
        add_references(docs.drop_first(), r.0, names.push(r.1))
    }
}

/// The whole index: the guide first, then the core-library documents, then
/// the extra-library documents.
pub open spec fn built_help(
    guide: Seq<MdEvent>,
    core: Seq<Vec<MdEvent>>,
    extra: Seq<Vec<MdEvent>>,
) -> (Seq<(Seq<char>, EntryModel)>, Seq<Seq<char>>, Seq<Seq<char>>, Seq<Seq<char>>) {
    let (m1, topics) = guide_outcome(guide, Seq::empty(), Seq::empty());
    let (m2, core_names) = add_references(core, m1, Seq::empty());
    let (m3, extra_names) = add_references(extra, m2, Seq::empty());
    (m3, topics, core_names, extra_names)
}

// ---------------------------------------------------------------------------
// The lookup model
// ---------------------------------------------------------------------------
pub open spec fn underline(n: nat) -> Seq<char> {
    Seq::new(n, |i: int| '=')
}

/// The fully formatted output for one entry: name, an underline of equals
/// signs as long as the name, a line break, then the body.
pub open spec fn formatted_entry(e: EntryModel) -> Seq<char> {
    e.name + "\n"@ + underline(e.name.len()) + "\n"@ + e.help
}

/// Whether an entry matches a normalized query: the query occurs inside the
/// entry's key or inside one of its keywords.
pub open spec fn entry_matches(key: Seq<char>, p: (Seq<char>, EntryModel)) -> bool {
    contains_seq(p.0, key) || exists|j: int|
        0 <= j < p.1.keywords.len() && contains_seq(#[trigger] p.1.keywords[j], key)
}

/// The indices of the matching entries, in index order, from position i on.
pub open spec fn matched_from(m: Seq<(Seq<char>, EntryModel)>, key: Seq<char>, i: int) -> Seq<int>
    decreases m.len() - i,
{
    if i < 0 || i >= m.len() {
        Seq::empty()
    } else if entry_matches(key, m[i]) {
        seq![i] + matched_from(m, key, i + 1)
    } else {
        matched_from(m, key, i + 1)
    }
}

pub open spec fn no_match_message(search: Seq<char>) -> Seq<char> {
    "No matches for '"@ + search + "' found."@
}

pub open spec fn bullets_from(
    m: Seq<(Seq<char>, EntryModel)>,
    ms: Seq<int>,
    j: int,
) -> Seq<char>
    decreases ms.len() - j,
{
    if j < 0 || j >= ms.len() {
        Seq::empty()
    } else {
        "\n  - "@ + m[ms[j]].1.name + bullets_from(m, ms, j + 1)
    }
}

pub open spec fn multi_match_message(m: Seq<(Seq<char>, EntryModel)>, ms: Seq<int>) -> Seq<char> {
    "More than one match found: "@ + bullets_from(m, ms, 0)
}

/// What a lookup returns: the formatted entry on an exact key match; else
/// the formatted single substring match; else the no-matches message or the
/// bullet list of all matches, by their count.
pub open spec fn lookup_result(m: Seq<(Seq<char>, EntryModel)>, search: Seq<char>) -> Seq<char> {
    let key = key_of(search);
    if model_has_key(m, key) {
        formatted_entry(m[model_key_index(m, key)].1)
    } else {
        let ms = matched_from(m, key, 0);
        if ms.len() == 0 {
            no_match_message(search)
        } else if ms.len() == 1 {
            formatted_entry(m[ms[0]].1)
        } else {
            multi_match_message(m, ms)
        }
    }
}

// ---------------------------------------------------------------------------
// The help index
// ---------------------------------------------------------------------------
/// The documentation index: all help entries under normalized keys, in
/// insertion order, plus the three topic-name listings. Built once, then
/// read-only.
pub struct Help {
    help_map: IndexMap<String, HelpEntry>,
    guide_topics: Vec<String>,
    core_lib_names: Vec<String>,
    extra_lib_names: Vec<String>,
}

impl Help {
    /// The key-entry pairs of the index, in insertion order.
    pub closed spec fn entries(self) -> Seq<(Seq<char>, EntryModel)> {
        index_map_model(self.help_map)
    }

    pub closed spec fn guide_topic_names(self) -> Seq<Seq<char>> {
        self.guide_topics.deep_view()
    }

    pub closed spec fn core_names(self) -> Seq<Seq<char>> {
        self.core_lib_names.deep_view()
    }

    pub closed spec fn extra_names(self) -> Seq<Seq<char>> {
        self.extra_lib_names.deep_view()
    }

    pub open spec fn wf(self) -> bool {
        model_wf(self.entries())
    }

    /// Builds the index from a guide document and two ordered lists of
    /// reference documents, each given as its markdown event stream. On
    /// structurally well-formed documents, every entry's display name is
    /// non-empty.
    pub fn new(
        guide: &Vec<MdEvent>,
        core_docs: &Vec<Vec<MdEvent>>,
        extra_docs: &Vec<Vec<MdEvent>>,
    ) -> (r: Self)
        ensures
            r.wf(),
            (guide_doc_wf(guide@) && (forall|i: int|
                0 <= i < core_docs@.len() ==> reference_doc_wf((#[trigger] core_docs@[i])@))
                && (forall|i: int|
                0 <= i < extra_docs@.len() ==> reference_doc_wf((#[trigger] extra_docs@[i])@)))
                ==> names_nonempty(r.entries()),
            r.entries() == built_help(guide@, core_docs@, extra_docs@).0,
            r.guide_topic_names() == built_help(guide@, core_docs@, extra_docs@).1,
            r.core_names() == built_help(guide@, core_docs@, extra_docs@).2,
            r.extra_names() == built_help(guide@, core_docs@, extra_docs@).3,
    {
        let mut result = Help {
            help_map: imap_new(),
            guide_topics: Vec::new(),
            core_lib_names: Vec::new(),
            extra_lib_names: Vec::new(),
        };
        proof {
            assert(result.guide_topics.deep_view() =~~= Seq::<Seq<char>>::empty());
            assert(result.core_lib_names.deep_view() =~~= Seq::<Seq<char>>::empty());
            assert(result.extra_lib_names.deep_view() =~~= Seq::<Seq<char>>::empty());
        }
        result.add_help_from_guide(guide);
        let ghost m1 = result.entries();
        let ghost topics = result.guide_topic_names();
        proof {
            assert(core_docs@.skip(0) =~= core_docs@);
        }
        let mut d: usize = 0;
        while d < core_docs.len()
            invariant
                d <= core_docs@.len(),
                result.wf(),
                add_references(core_docs@, m1, Seq::empty()) == add_references(
                    core_docs@.skip(d as int),
                    result.entries(),
                    result.core_names(),
                ),
                result.guide_topic_names() == topics,
                result.extra_names() == Seq::<Seq<char>>::empty(),
            decreases core_docs@.len() - d,
        {
            let ghost pre = result.entries();
            let ghost pre_names = result.core_names();
            let doc = &core_docs[d];
            let module_name = result.add_help_from_reference(doc);
            result.core_lib_names.push(module_name);
            proof {
                assert(core_docs@.skip(d as int)[0] == core_docs@[d as int]);
                assert(core_docs@.skip(d as int).drop_first() =~= core_docs@.skip(d + 1));
                assert(result.core_names() =~~= pre_names.push(
                    reference_outcome(core_docs@[d as int]@, pre).1,
                ));
            }
            d += 1;
        }
        proof {
            assert(core_docs@.skip(core_docs@.len() as int) =~= Seq::<Vec<MdEvent>>::empty());
            assert(add_references(core_docs@, m1, Seq::empty()) == ((
                result.entries(),
                result.core_names(),
            )));
            assert(extra_docs@.skip(0) =~= extra_docs@);
        }
        let ghost m2 = result.entries();
        let mut x: usize = 0;
        while x < extra_docs.len()
            invariant
                x <= extra_docs@.len(),
                result.wf(),
                add_references(extra_docs@, m2, Seq::empty()) == add_references(
                    extra_docs@.skip(x as int),
                    result.entries(),
                    result.extra_names(),
                ),
                result.guide_topic_names() == topics,
                result.core_names() == add_references(core_docs@, m1, Seq::empty()).1,
            decreases extra_docs@.len() - x,
        {
            let ghost pre = result.entries();
            let ghost pre_names = result.extra_names();
            let doc = &extra_docs[x];
            let module_name = result.add_help_from_reference(doc);
            result.extra_lib_names.push(module_name);
            proof {
                assert(extra_docs@.skip(x as int)[0] == extra_docs@[x as int]);
                assert(extra_docs@.skip(x as int).drop_first() =~= extra_docs@.skip(x + 1));
                assert(result.extra_names() =~~= pre_names.push(
                    reference_outcome(extra_docs@[x as int]@, pre).1,
                ));
            }
            x += 1;
        }
        proof {
            assert(extra_docs@.skip(extra_docs@.len() as int) =~= Seq::<Vec<MdEvent>>::empty());
            assert(add_references(extra_docs@, m2, Seq::empty()) == ((
                result.entries(),
                result.extra_names(),
            )));
            if guide_doc_wf(guide@) && (forall|i: int|
                0 <= i < core_docs@.len() ==> reference_doc_wf((#[trigger] core_docs@[i])@))
                && (forall|i: int|
                0 <= i < extra_docs@.len() ==> reference_doc_wf((#[trigger] extra_docs@[i])@)) {
                lemma_built_help_names_nonempty(guide@, core_docs@, extra_docs@);
            }
        }
        result
    }

    /// Walks one guide document: the introduction is skipped, then each
    /// level-2 topic is added together with its level-3 sub-topics, collected
    /// until the blank-body sentinel.
    fn add_help_from_guide(&mut self, events: &Vec<MdEvent>)
        requires
            old(self).wf(),
        ensures
            final(self).wf(),
            final(self).entries() == guide_outcome(
                events@,
                old(self).entries(),
                old(self).guide_topic_names(),
            ).0,
            final(self).guide_topic_names() == guide_outcome(
                events@,
                old(self).entries(),
                old(self).guide_topic_names(),
            ).1,
            final(self).core_names() == old(self).core_names(),
            final(self).extra_names() == old(self).extra_names(),
    {
        let ghost m0 = self.entries();
        let ghost t0 = self.guide_topic_names();
        let mut p: usize = 0;
        let _intro = consume_help_section(events, &mut p, None, 1, false);
        let ghost p1 = section_at(events@, 0, 1, false).0;
        proof {
            lemma_run_section_bounds(events@, 0, crate::section::init_section_state(), 1, false);
        }
        loop
            invariant_except_break
                guide_rounds(events@, p1, m0, t0) == guide_rounds(
                    events@,
                    p as int,
                    self.entries(),
                    self.guide_topic_names(),
                ),
            invariant
                p <= events@.len(),
                model_wf(self.entries()),
                self.core_names() == old(self).core_names(),
                self.extra_names() == old(self).extra_names(),
            ensures
                guide_rounds(events@, p1, m0, t0) == ((
                    self.entries(),
                    self.guide_topic_names(),
                )),
                model_wf(self.entries()),
                self.core_names() == old(self).core_names(),
                self.extra_names() == old(self).extra_names(),
            decreases events@.len() - p,
        {
            let ghost p_round = p as int;
            let ghost m_round = self.entries();
            let ghost t_round = self.guide_topic_names();
            if p >= events.len() {
                proof {
                    assert(guide_rounds(events@, p as int, self.entries(),
                        self.guide_topic_names()) == ((self.entries(),
                    self.guide_topic_names())));
                }
                break;
            }
            let round_start = p;
            let topic = consume_help_section(events, &mut p, None, 2, false);
            let ghost topic_st = section_at(events@, p_round, 2, false).1;
            proof {
                lemma_run_section_bounds(events@, p_round,
                    crate::section::init_section_state(), 2, false);
            }
            let ghost p2 = p as int;
            // Collect the topic's sub-topics until the blank-body sentinel.
            let mut subs: Vec<HelpSection> = Vec::new();
            let ghost mut acc: Seq<SectionState> = Seq::empty();
            loop
                invariant_except_break
                    sub_topics_at(events@, p2) == ((
                        sub_topics_at(events@, p as int).0,
                        acc + sub_topics_at(events@, p as int).1,
                    )),
                invariant
                    p2 <= p as int <= events@.len(),
                    acc.len() == subs@.len(),
                    forall|t: int|
                        0 <= t < acc.len() ==> (#[trigger] subs@[t]).name@ == acc[t].name
                            && subs@[t].contents@ == acc[t].body
                            && subs@[t].sub_sections.deep_view() == acc[t].subs,
                ensures
                    p as int <= events@.len(),
                    acc.len() == subs@.len(),
                    forall|t: int|
                        0 <= t < acc.len() ==> (#[trigger] subs@[t]).name@ == acc[t].name
                            && subs@[t].contents@ == acc[t].body
                            && subs@[t].sub_sections.deep_view() == acc[t].subs,
                    sub_topics_at(events@, p2) == ((p as int, acc)),
                decreases events@.len() - p,
            {
                let ghost p_cur = p as int;
                let ghost acc0 = acc;
                let sub_topic = consume_help_section(events, &mut p, None, 3, true);
                let ghost sub_st = section_at(events@, p_cur, 3, true).1;
                proof {
                    lemma_run_section_bounds(events@, p_cur,
                        crate::section::init_section_state(), 3, true);
                }
                if is_blank(sub_topic.contents.as_str()) {
                    proof {
                        assert(sub_topics_at(events@, p_cur) == ((p as int, Seq::<
                            SectionState,
                        >::empty())));
                        assert(acc + Seq::<SectionState>::empty() =~= acc);
                    }
                    break;
                }
                proof {
                    lemma_no_progress_blank(events@, p_cur, 3, true);
                    assert(p_cur < p as int);
                    let rest = sub_topics_at(events@, p as int);
                    assert(sub_topics_at(events@, p_cur) == ((rest.0, seq![sub_st] + rest.1)));
                    assert(acc0 + (seq![sub_st] + rest.1) =~= (acc0.push(sub_st)) + rest.1);
                }
                subs.push(sub_topic);
                proof {
                    acc = acc.push(sub_st);
                }
            }
            // The topic entry itself, with no keywords.
            let key = text_to_key(topic.name.as_str());
            let entry = HelpEntry {
                name: topic.name.clone(),
                help: topic.contents,
                keywords: Vec::new(),
            };
            proof {
                assert(entry@.keywords =~= Seq::<Seq<char>>::empty());
                assert(entry@ =~~= topic_entry(topic_st));
            }
            let ghost m_before = self.entries();
            imap_insert(&mut self.help_map, key, entry);
            proof {
                lemma_apply_insert(m_before, self.entries(), key_of(topic_st.name),
                    topic_entry(topic_st));
            }
            self.guide_topics.push(topic.name);
            proof {
                assert(self.guide_topic_names() =~~= t_round.push(topic_st.name));
            }
            // Each sub-topic entry, keyed by its name, with its sub-section
            // names as keywords.
            let ghost m1 = self.entries();
            proof {
                assert(acc.skip(0) =~= acc);
            }
            let mut si: usize = 0;
            while si < subs.len()
                invariant
                    si <= subs@.len(),
                    acc.len() == subs@.len(),
                    forall|t: int|
                        0 <= t < acc.len() ==> (#[trigger] subs@[t]).name@ == acc[t].name
                            && subs@[t].contents@ == acc[t].body
                            && subs@[t].sub_sections.deep_view() == acc[t].subs,
                    model_wf(self.entries()),
                    insert_sub_topics(m1, acc) == insert_sub_topics(
                        self.entries(),
                        acc.skip(si as int),
                    ),
                    self.guide_topic_names() == t_round.push(topic_st.name),
                    self.core_names() == old(self).core_names(),
                    self.extra_names() == old(self).extra_names(),
                decreases subs@.len() - si,
            {
                let sub = &subs[si];
                let mut kws: Vec<String> = Vec::new();
                let mut t: usize = 0;
                while t < sub.sub_sections.len()
                    invariant
                        t <= sub.sub_sections@.len(),
                        kws@.len() == t,
                        forall|q: int|
                            0 <= q < t ==> (#[trigger] kws@[q])@ == key_of(
                                sub.sub_sections@[q]@,
                            ),
                    decreases sub.sub_sections@.len() - t,
                {
                    kws.push(text_to_key(sub.sub_sections[t].as_str()));
                    t += 1;
                }
                proof {
                    let names = sub.sub_sections.deep_view();
                    assert forall|q: int| 0 <= q < names.len() implies kws.deep_view()[q]
                        == keys_of(names)[q] by {
                        assert(keys_of(names)[q] == key_of(names[q]));
                        assert(names[q] == sub.sub_sections@[q]@);
                        assert(kws.deep_view()[q] == kws@[q]@);
                    }
                    assert(kws.deep_view().len() == keys_of(names).len());
                    assert(kws.deep_view() =~~= keys_of(names));
                }
                let key = text_to_key(sub.name.as_str());
                let entry = HelpEntry {
                    name: sub.name.clone(),
                    help: sub.contents.clone(),
                    keywords: kws,
                };
                let ghost st = acc[si as int];
                proof {
                    assert(entry@ =~~= sub_topic_entry(st));
                }
                let ghost m_before = self.entries();
                imap_insert(&mut self.help_map, key, entry);
                proof {
                    lemma_apply_insert(m_before, self.entries(), key_of(st.name),
                        sub_topic_entry(st));
                    assert(acc.skip(si as int)[0] == acc[si as int]);
                    assert(acc.skip(si as int).drop_first() =~= acc.skip(si + 1));
                }
                si += 1;
            }
            proof {
                assert(acc.skip(acc.len() as int) =~= Seq::<SectionState>::empty());
                assert(insert_sub_topics(m1, acc) == self.entries());
                // One full round matches one unfolding of guide_rounds.
                assert(guide_rounds(events@, p_round, m_round, t_round) == (if p_round < p as int
                    <= events@.len() {
                    guide_rounds(events@, p as int, self.entries(), self.guide_topic_names())
                } else {
                    ((self.entries(), self.guide_topic_names()))
                }));
            }
            if p == round_start {
                // a round that consumed nothing would repeat forever; stop
                break;
            }
        }
    }

    /// Walks one reference document: the level-1 module header names the
    /// module, each level-2 section becomes an entry keyed "module.entry",
    /// and a non-blank header body becomes the module's overview entry.
    /// Returns the module's bare name.
    fn add_help_from_reference(&mut self, events: &Vec<MdEvent>) -> (r: String)
        requires
            old(self).wf(),
        ensures
            final(self).wf(),
            final(self).entries() == reference_outcome(events@, old(self).entries()).0,
            r@ == reference_outcome(events@, old(self).entries()).1,
            final(self).guide_topic_names() == old(self).guide_topic_names(),
            final(self).core_names() == old(self).core_names(),
            final(self).extra_names() == old(self).extra_names(),
    {
        let ghost m0 = self.entries();
        let mut p: usize = 0;
        let help_section = consume_help_section(events, &mut p, None, 1, false);
        let ghost head = section_at(events@, 0, 1, false).1;
        let ghost p1 = section_at(events@, 0, 1, false).0;
        proof {
            lemma_run_section_bounds(events@, 0, crate::section::init_section_state(), 1, false);
        }
        loop
            invariant_except_break
                reference_rounds(events@, p1, head.name, m0) == reference_rounds(
                    events@,
                    p as int,
                    head.name,
                    self.entries(),
                ),
            invariant
                p1 <= p as int <= events@.len(),
                help_section.name@ == head.name,
                model_wf(self.entries()),
                self.guide_topic_names() == old(self).guide_topic_names(),
                self.core_names() == old(self).core_names(),
                self.extra_names() == old(self).extra_names(),
            ensures
                reference_rounds(events@, p1, head.name, m0) == ((p as int, self.entries())),
                model_wf(self.entries()),
                self.guide_topic_names() == old(self).guide_topic_names(),
                self.core_names() == old(self).core_names(),
                self.extra_names() == old(self).extra_names(),
            decreases events@.len() - p,
        {
            let ghost p_round = p as int;
            let ghost m_round = self.entries();
            if p >= events.len() {
                proof {
                    assert(reference_rounds(events@, p as int, head.name, self.entries()) == ((
                    p as int,
                        self.entries(),
                    )));
                }
                break;
            }
            let round_start = p;
            let module_entry = consume_help_section(
                events,
                &mut p,
                Some(help_section.name.as_str()),
                2,
                true,
            );
            let ghost st = section_at(events@, p_round, 2, true).1;
            proof {
                lemma_run_section_bounds(events@, p_round, crate::section::init_section_state(),
                    2, true);
            }
            let key = text_to_key(module_entry.name.as_str());
            let entry = HelpEntry {
                name: module_entry.name.clone(),
                help: module_entry.contents,
                keywords: Vec::new(),
            };
            proof {
                assert(entry@.keywords =~= Seq::<Seq<char>>::empty());
                assert(help_section.name@ == head.name);
                assert(module_entry.name@ == help_section.name@ + "."@ + st.name);
                assert(entry@.help == st.body);
                assert(entry@ =~~= ref_entry(head.name, st));
            }
            let ghost m_before = self.entries();
            imap_insert(&mut self.help_map, key, entry);
            proof {
                lemma_apply_insert(m_before, self.entries(), key_of(head.name + "."@ + st.name),
                    ref_entry(head.name, st));
                assert(reference_rounds(events@, p_round, head.name, m_round) == (if p_round < p
                    as int <= events@.len() {
                    reference_rounds(events@, p as int, head.name, self.entries())
                } else {
                    ((p as int, self.entries()))
                }));
            }
            if p == round_start {
                // a round that consumed nothing would repeat forever; stop
                break;
            }
        }
        if !is_blank(help_section.contents.as_str()) {
            let key = text_to_key(help_section.name.as_str());
            let entry = HelpEntry {
                name: help_section.name.clone(),
                help: help_section.contents,
                keywords: Vec::new(),
            };
            proof {
                assert(entry@.keywords =~= Seq::<Seq<char>>::empty());
                assert(entry@ =~~= topic_entry(head));
            }
            let ghost m_before = self.entries();
            imap_insert(&mut self.help_map, key, entry);
            proof {
                lemma_apply_insert(m_before, self.entries(), key_of(head.name),
                    topic_entry(head));
            }
        }
        help_section.name
    }

    /// Answers one free-text query: an exact key match is formatted with its
    /// underlined name; otherwise all substring matches over keys and
    /// keywords decide between the no-matches message, the one formatted
    /// match, and the bullet list of every match in index order.
    pub fn get_help(&self, search: &str) -> (r: String)
        requires
            self.wf(),
        ensures
            r@ == lookup_result(self.entries(), search@),
    {
        let ghost m = self.entries();
        let search_key = text_to_key(search);
        let found = imap_get(&self.help_map, search_key.as_str());
        match found {
            Some(entry) => {
                proof {
                    let i = choose|i: int|
                        0 <= i < m.len() && #[trigger] m[i].0 == search_key@ && m[i].1 == entry@;
                    assert(m[i].0 == search_key@);
                    assert(model_has_key(m, key_of(search@)));
                    let j = model_key_index(m, key_of(search@));
                    if i < j {
                        assert(m[i].0 != m[j].0);
                    } else if j < i {
                        assert(m[j].0 != m[i].0);
                    }
                    assert(m[j].1 == entry@);
                }
                format_help_text(entry.name.as_str(), entry.help.as_str())
            },
            None => {
                proof {
                    assert(!model_has_key(m, key_of(search@)));
                }
                let ghost key = key_of(search@);
                let n = imap_len(&self.help_map);
                let mut matched: Vec<usize> = Vec::new();
                let mut i: usize = 0;
                while i < n
                    invariant
                        self.wf(),
                        m == self.entries(),
                        key == search_key@,
                        n as int == m.len(),
                        i <= n,
                        forall|t: int| 0 <= t < matched@.len() ==> #[trigger] matched@[t] < i,
                        matched_from(m, key, 0) == idxs_of(matched@) + matched_from(
                            m,
                            key,
                            i as int,
                        ),
                    decreases n - i,
                {
                    let ghost matched0 = matched@;
                    let pair = imap_get_index(&self.help_map, i).unwrap();
                    let hit = contains_sub(pair.0.as_str(), search_key.as_str())
                        || keyword_hit(pair.1, search_key.as_str());
                    proof {
                        assert(hit == entry_matches(key, m[i as int]));
                    }
                    if hit {
                        matched.push(i);
                        proof {
                            assert(idxs_of(matched@) =~= idxs_of(matched0).push(i as int));
                            assert(idxs_of(matched0) + (seq![i as int] + matched_from(m, key, i
                                + 1)) =~= idxs_of(matched0).push(i as int) + matched_from(m, key,
                                i + 1));
                        }
                    }
                    i += 1;
                }
                proof {
                    assert(matched_from(m, key, n as int) =~= Seq::<int>::empty());
                    assert(idxs_of(matched@) + Seq::<int>::empty() =~= idxs_of(matched@));
                    assert(matched_from(m, key, 0) == idxs_of(matched@));
                }
                if matched.len() == 0 {
                    let mut out = String::from_str("No matches for '");
                    out.append(search);
                    out.append("' found.");
                    out
                } else if matched.len() == 1 {
                    let only = matched[0];
                    let pair = imap_get_index(&self.help_map, only).unwrap();
                    proof {
                        assert(idxs_of(matched@)[0] == only as int);
                    }
                    format_help_text(pair.1.name.as_str(), pair.1.help.as_str())
                } else {
                    let ghost ms = matched_from(m, key, 0);
                    let mut out = String::from_str("More than one match found: ");
                    let mut j: usize = 0;
                    while j < matched.len()
                        invariant
                            self.wf(),
                            m == self.entries(),
                            j <= matched@.len(),
                            ms == idxs_of(matched@),
                            forall|t: int|
                                0 <= t < matched@.len() ==> #[trigger] matched@[t] < m.len(),
                            "More than one match found: "@ + bullets_from(m, ms, 0) == out@
                                + bullets_from(m, ms, j as int),
                        decreases matched@.len() - j,
                    {
                        let ghost out0 = out@;
                        let idx = matched[j];
                        let pair = imap_get_index(&self.help_map, idx).unwrap();
                        out.append("\n  - ");
                        out.append(pair.1.name.as_str());
                        proof {
                            assert(ms[j as int] == idx as int);
                            assert(bullets_from(m, ms, j as int) == "\n  - "@ + m[idx as int].1.name
                                + bullets_from(m, ms, j + 1));
                            assert((out0 + "\n  - "@) + m[idx as int].1.name + bullets_from(m, ms,
                                j + 1) =~= out0 + ("\n  - "@ + m[idx as int].1.name
                                + bullets_from(m, ms, j + 1)));
                        }
                        j += 1;
                    }
                    proof {
                        assert(bullets_from(m, ms, matched@.len() as int) =~= Seq::<
                            char,
                        >::empty());
                        assert(out@ + Seq::<char>::empty() =~= out@);
                    }
                    out
                }
            },
        }
    }

    /// How many entries the index holds.
    pub fn num_entries(&self) -> (r: usize)
        ensures
            r as int == self.entries().len(),
    {
        imap_len(&self.help_map)
    }

    /// The guide's topic names, in document order.
    pub fn guide_topics(&self) -> (r: &Vec<String>)
        ensures
            r.deep_view() == self.guide_topic_names(),
    {
        &self.guide_topics
    }

    /// The core-library module names, in document order.
    pub fn core_lib_names(&self) -> (r: &Vec<String>)
        ensures
            r.deep_view() == self.core_names(),
    {
        &self.core_lib_names
    }

    /// The extra-library module names, in document order.
    pub fn extra_lib_names(&self) -> (r: &Vec<String>)
        ensures
            r.deep_view() == self.extra_names(),
    {
        &self.extra_lib_names
    }
}

pub open spec fn idxs_of(v: Seq<usize>) -> Seq<int> {
    v.map_values(|u: usize| u as int)
}

/// Connects one trusted map insertion to the model-level insertion and keeps
/// well-formedness.
proof fn lemma_apply_insert(
    pre: Seq<(Seq<char>, EntryModel)>,
    post: Seq<(Seq<char>, EntryModel)>,
    k: Seq<char>,
    v: EntryModel,
)
    requires
        model_wf(pre),
        k == key_of(v.name),
        (exists|i: int| 0 <= i < pre.len() && #[trigger] pre[i].0 == k) ==> exists|i: int|
            0 <= i < pre.len() && #[trigger] pre[i].0 == k && post == pre.update(i, (k, v)),
        !(exists|i: int| 0 <= i < pre.len() && #[trigger] pre[i].0 == k) ==> post == pre.push(
            (k, v),
        ),
    ensures
        post == model_insert(pre, k, v),
        model_wf(post),
{
    if model_has_key(pre, k) {
        let i = choose|i: int|
            0 <= i < pre.len() && #[trigger] pre[i].0 == k && post == pre.update(i, (k, v));
        lemma_update_is_model_insert(pre, i, k, v);
    }
    lemma_model_insert_wf(pre, k, v);
}

/// Whether the query occurs inside one of the entry's keywords.
fn keyword_hit(e: &HelpEntry, key: &str) -> (r: bool)
    ensures
        r == exists|j: int|
            0 <= j < e@.keywords.len() && contains_seq(#[trigger] e@.keywords[j], key@),
{
    let mut j: usize = 0;
    while j < e.keywords.len()
        invariant
            j <= e.keywords@.len(),
            e@.keywords.len() == e.keywords@.len(),
            forall|t: int| 0 <= t < j ==> !contains_seq(#[trigger] e@.keywords[t], key@),
        decreases e.keywords@.len() - j,
    {
        proof {
            assert(e@.keywords[j as int] == e.keywords@[j as int]@);
        }
        if contains_sub(e.keywords[j].as_str(), key) {
            return true;
        }
        j += 1;
    }
    false
}

/// The formatted output for one entry: its name, an underline of equals
/// signs, then its help text.
fn format_help_text(name: &str, help_text: &str) -> (r: String)
    ensures
        r@ == name@ + "\n"@ + underline(name@.len()) + "\n"@ + help_text@,
{
    let mut out = String::from_str(name);
    out.append("\n");
    let n = name.unicode_len();
    let mut i: usize = 0;
    while i < n
        invariant
            i <= n == name@.len(),
            out@ == name@ + "\n"@ + underline(i as nat),
        decreases n - i,
    {
        push_char(&mut out, '=');
        i += 1;
        proof {
            assert(underline(i as nat) =~= underline((i - 1) as nat).push('='));
            assert((name@ + "\n"@ + underline((i - 1) as nat)).push('=') =~= name@ + "\n"@
                + underline(i as nat));
        }
    }
    out.append("\n");
    out.append(help_text);
    out
}



// ---------------------------------------------------------------------------
// Non-empty names under well-formed documents
// ---------------------------------------------------------------------------
proof fn lemma_model_insert_keeps_names(m: Seq<(Seq<char>, EntryModel)>, k: Seq<char>, v: EntryModel)
    requires
        names_nonempty(m),
        v.name.len() > 0,
    ensures
        names_nonempty(model_insert(m, k, v)),
{
    if model_has_key(m, k) {
        let i = model_key_index(m, k);
        let m2 = m.update(i, (k, v));
        assert forall|t: int| 0 <= t < m2.len() implies (#[trigger] m2[t].1).name.len() > 0 by {
            if t != i {
                assert(m2[t] == m[t]);
            }
        }
    } else {
        let m2 = m.push((k, v));
        assert forall|t: int| 0 <= t < m2.len() implies (#[trigger] m2[t].1).name.len() > 0 by {
            if t < m.len() {
                assert(m2[t] == m[t]);
            }
        }
    }
}

proof fn lemma_insert_sub_topics_keeps_names(m: Seq<(Seq<char>, EntryModel)>, subs: Seq<SectionState>)
    requires
        names_nonempty(m),
        forall|i: int| 0 <= i < subs.len() ==> (#[trigger] subs[i]).name.len() > 0,
    ensures
        names_nonempty(insert_sub_topics(m, subs)),
    decreases subs.len(),
{
    if subs.len() > 0 {
        lemma_model_insert_keeps_names(m, key_of(subs[0].name), sub_topic_entry(subs[0]));
        assert(forall|i: int| 0 <= i < subs.len() - 1 ==> subs.drop_first()[i] == subs[i + 1]);
        lemma_insert_sub_topics_keeps_names(
            model_insert(m, key_of(subs[0].name), sub_topic_entry(subs[0])),
            subs.drop_first(),
        );
    }
}

proof fn lemma_guide_rounds_keep_names(
    events: Seq<MdEvent>,
    pos: int,
    m: Seq<(Seq<char>, EntryModel)>,
    topics: Seq<Seq<char>>,
)
    requires
        names_nonempty(m),
        guide_rounds_wf(events, pos),
    ensures
        names_nonempty(guide_rounds(events, pos, m, topics).0),
    decreases events.len() - pos,
{
    if 0 <= pos < events.len() {
        let (p2, topic) = section_at(events, pos, 2, false);
        let (p3, subs) = sub_topics_at(events, p2);
        let m1 = model_insert(m, key_of(topic.name), topic_entry(topic));
        lemma_model_insert_keeps_names(m, key_of(topic.name), topic_entry(topic));
        lemma_insert_sub_topics_keeps_names(m1, subs);
        if pos < p3 <= events.len() {
            lemma_guide_rounds_keep_names(events, p3, insert_sub_topics(m1, subs),
                topics.push(topic.name));
        }
    }
}

proof fn lemma_reference_rounds_keep_names(
    events: Seq<MdEvent>,
    pos: int,
    module: Seq<char>,
    m: Seq<(Seq<char>, EntryModel)>,
)
    requires
        names_nonempty(m),
    ensures
        names_nonempty(reference_rounds(events, pos, module, m).1),
    decreases events.len() - pos,
{
    if 0 <= pos < events.len() {
        let (p2, st) = section_at(events, pos, 2, true);
        reveal_strlit(".");
        assert(ref_entry(module, st).name.len() > 0);
        let m1 = model_insert(m, key_of(module + "."@ + st.name), ref_entry(module, st));
        lemma_model_insert_keeps_names(m, key_of(module + "."@ + st.name),
            ref_entry(module, st));
        if pos < p2 <= events.len() {
            lemma_reference_rounds_keep_names(events, p2, module, m1);
        }
    }
}

proof fn lemma_reference_outcome_keeps_names(events: Seq<MdEvent>, m: Seq<(Seq<char>, EntryModel)>)
    requires
        names_nonempty(m),
        reference_doc_wf(events),
    ensures
        names_nonempty(reference_outcome(events, m).0),
{
    let (p1, head) = section_at(events, 0, 1, false);
    lemma_reference_rounds_keep_names(events, p1, head.name, m);
    let m1 = reference_rounds(events, p1, head.name, m).1;
    if trim_spec(head.body).len() != 0 {
        lemma_model_insert_keeps_names(m1, key_of(head.name), topic_entry(head));
    }
}

proof fn lemma_add_references_keep_names(
    docs: Seq<Vec<MdEvent>>,
    m: Seq<(Seq<char>, EntryModel)>,
    names: Seq<Seq<char>>,
)
    requires
        names_nonempty(m),
        forall|i: int| 0 <= i < docs.len() ==> reference_doc_wf((#[trigger] docs[i])@),
    ensures
        names_nonempty(add_references(docs, m, names).0),
    decreases docs.len(),
{
    if docs.len() > 0 {
        lemma_reference_outcome_keeps_names(docs[0]@, m);
        assert(forall|i: int| 0 <= i < docs.len() - 1 ==> docs.drop_first()[i] == docs[i + 1]);
        lemma_add_references_keep_names(docs.drop_first(), reference_outcome(docs[0]@, m).0,
            names.push(reference_outcome(docs[0]@, m).1));
    }
}

/// Well-formed source documents build an index in which no entry's display
/// name is empty.
pub proof fn lemma_built_help_names_nonempty(
    guide: Seq<MdEvent>,
    core: Seq<Vec<MdEvent>>,
    extra: Seq<Vec<MdEvent>>,
)
    requires
        guide_doc_wf(guide),
        forall|i: int| 0 <= i < core.len() ==> reference_doc_wf((#[trigger] core[i])@),
        forall|i: int| 0 <= i < extra.len() ==> reference_doc_wf((#[trigger] extra[i])@),
    ensures
        names_nonempty(built_help(guide, core, extra).0),
{
    lemma_guide_rounds_keep_names(guide, section_at(guide, 0, 1, false).0,
        Seq::empty(), Seq::empty());
    let m1 = guide_outcome(guide, Seq::empty(), Seq::empty()).0;
    lemma_add_references_keep_names(core, m1, Seq::empty());
    let m2 = add_references(core, m1, Seq::empty()).0;
    lemma_add_references_keep_names(extra, m2, Seq::empty());
}

// ---------------------------------------------------------------------------
// Laws of the lookup engine
// ---------------------------------------------------------------------------
/// Every index that the match scan lists is a matching entry, every matching
/// entry is listed, and the listed indices are strictly increasing.
pub proof fn lemma_matched_from_complete(m: Seq<(Seq<char>, EntryModel)>, key: Seq<char>, i: int)
    requires
        0 <= i,
    ensures
        forall|j: int|
            0 <= j < matched_from(m, key, i).len() ==> i <= #[trigger] matched_from(m, key, i)[j]
                < m.len() && entry_matches(key, m[matched_from(m, key, i)[j]]),
        forall|t: int|
            i <= t < m.len() && entry_matches(key, m[t]) ==> exists|j: int|
                0 <= j < matched_from(m, key, i).len() && #[trigger] matched_from(m, key, i)[j]
                    == t,
        forall|a: int, b: int|
            0 <= a < b < matched_from(m, key, i).len() ==> matched_from(m, key, i)[a]
                < matched_from(m, key, i)[b],
    decreases m.len() - i,
{
    if i < m.len() {
        lemma_matched_from_complete(m, key, i + 1);
        let rest = matched_from(m, key, i + 1);
        let ms = matched_from(m, key, i);
        if entry_matches(key, m[i]) {
            assert(ms == seq![i] + rest);
            assert(ms[0] == i);
            assert(forall|j: int| 1 <= j < ms.len() ==> ms[j] == rest[j - 1]);
            assert forall|t: int|
                i <= t < m.len() && entry_matches(key, m[t]) implies exists|j: int|
                0 <= j < ms.len() && #[trigger] ms[j] == t by {
                if t == i {
                    assert(ms[0] == t);
                } else {
                    let j0 = choose|j0: int| 0 <= j0 < rest.len() && #[trigger] rest[j0] == t;
                    assert(ms[j0 + 1] == t);
                }
            }
        } else {
            assert(ms == rest);
            assert forall|t: int|
                i <= t < m.len() && entry_matches(key, m[t]) implies exists|j: int|
                0 <= j < ms.len() && #[trigger] ms[j] == t by {
                assert(t != i);
                let j0 = choose|j0: int| 0 <= j0 < rest.len() && #[trigger] rest[j0] == t;
                assert(ms[j0] == t);
            }
        }
    }
}

/// Looking an entry up by its name, case-flipped and whitespace-padded,
/// gives the same answer as looking it up by the name itself: lookups are
/// case- and spacing-insensitive for every present entry.
pub proof fn lemma_lookup_case_and_space_insensitive(
    m: Seq<(Seq<char>, EntryModel)>,
    name: Seq<char>,
    pad_l: Seq<char>,
    pad_r: Seq<char>,
)
    requires
        model_wf(m),
        model_has_key(m, key_of(name)),
        forall|i: int| 0 <= i < pad_l.len() ==> is_ws(pad_l[i]),
        forall|i: int| 0 <= i < pad_r.len() ==> is_ws(pad_r[i]),
    ensures
        lookup_result(m, pad_l + to_upper(name) + pad_r) == lookup_result(m, name),
{
    lemma_key_of_upper_padded(name, pad_l, pad_r);
}

/// For every entry of a well-formed index, looking it up by its name,
/// upper-cased and whitespace-padded, gives the same answer as by the exact
/// name.
pub proof fn lemma_entry_lookup_padded_upper(
    m: Seq<(Seq<char>, EntryModel)>,
    i: int,
    pad_l: Seq<char>,
    pad_r: Seq<char>,
)
    requires
        model_wf(m),
        0 <= i < m.len(),
        forall|t: int| 0 <= t < pad_l.len() ==> is_ws(pad_l[t]),
        forall|t: int| 0 <= t < pad_r.len() ==> is_ws(pad_r[t]),
    ensures
        lookup_result(m, pad_l + to_upper(m[i].1.name) + pad_r) == lookup_result(
            m,
            m[i].1.name,
        ),
{
    assert(m[i].0 == key_of(m[i].1.name));
    assert(model_has_key(m, key_of(m[i].1.name)));
    lemma_lookup_case_and_space_insensitive(m, m[i].1.name, pad_l, pad_r);
}

/// A query whose normalized text is not itself a key but occurs inside
/// exactly one entry's key or keywords returns that entry's fully formatted
/// output: the same output as querying the entry's exact name.
pub proof fn lemma_single_match_formats_entry(m: Seq<(Seq<char>, EntryModel)>, q: Seq<char>)
    requires
        model_wf(m),
        !model_has_key(m, key_of(q)),
        matched_from(m, key_of(q), 0).len() == 1,
    ensures
        0 <= matched_from(m, key_of(q), 0)[0] < m.len(),
        lookup_result(m, q) == formatted_entry(m[matched_from(m, key_of(q), 0)[0]].1),
        lookup_result(m, q) == lookup_result(m, m[matched_from(m, key_of(q), 0)[0]].1.name),
    {
    lemma_matched_from_complete(m, key_of(q), 0);
    let idx = matched_from(m, key_of(q), 0)[0];
    assert(m[idx].0 == key_of(m[idx].1.name));
    assert(model_has_key(m, key_of(m[idx].1.name)));
    let j = model_key_index(m, key_of(m[idx].1.name));
    assert(0 <= j < m.len() && m[j].0 == key_of(m[idx].1.name));
    if j < idx {
        assert(m[j].0 != m[idx].0);
    } else if idx < j {
        assert(m[idx].0 != m[j].0);
    }
}

/// A query that matches nothing returns the no-matches message, which quotes
/// the original query text.
pub proof fn lemma_no_match_names_query(m: Seq<(Seq<char>, EntryModel)>, q: Seq<char>)
    requires
        !model_has_key(m, key_of(q)),
        matched_from(m, key_of(q), 0).len() == 0,
    ensures
        lookup_result(m, q) == no_match_message(q),
        contains_seq(no_match_message(q), q),
{
    let pre = "No matches for '"@;
    let msg = no_match_message(q);
    assert(msg.subrange(pre.len() as int, pre.len() as int + q.len() as int) =~= q);
    assert(0 <= pre.len() as int <= msg.len() - q.len());
}

/// A query that matches two or more entries returns the header followed by
/// one bullet per matching entry, in index order: the listed indices are
/// exactly the matching ones, strictly increasing.
pub proof fn lemma_multi_match_lists_every_match(m: Seq<(Seq<char>, EntryModel)>, q: Seq<char>)
    requires
        !model_has_key(m, key_of(q)),
        matched_from(m, key_of(q), 0).len() >= 2,
    ensures
        lookup_result(m, q) == multi_match_message(m, matched_from(m, key_of(q), 0)),
        forall|j: int|
            0 <= j < matched_from(m, key_of(q), 0).len() ==> 0 <= #[trigger] matched_from(
                m,
                key_of(q),
                0,
            )[j] < m.len() && entry_matches(key_of(q), m[matched_from(m, key_of(q), 0)[j]]),
        forall|t: int|
            0 <= t < m.len() && entry_matches(key_of(q), m[t]) ==> exists|j: int|
                0 <= j < matched_from(m, key_of(q), 0).len() && #[trigger] matched_from(
                    m,
                    key_of(q),
                    0,
                )[j] == t,
        forall|a: int, b: int|
            0 <= a < b < matched_from(m, key_of(q), 0).len() ==> matched_from(m, key_of(q), 0)[a]
                < matched_from(m, key_of(q), 0)[b],
{
    lemma_matched_from_complete(m, key_of(q), 0);
}

} // verus!
