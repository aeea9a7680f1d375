use koto_help::event::MdEvent;
use koto_help::help::Help;
use koto_help::section::consume_help_section;
use pulldown_cmark::{CodeBlockKind, Event, HeadingLevel, Parser, Tag, TagEnd};

fn level_num(level: HeadingLevel) -> u32 {
    match level {
        HeadingLevel::H1 => 1,
        HeadingLevel::H2 => 2,
        HeadingLevel::H3 => 3,
        HeadingLevel::H4 => 4,
        HeadingLevel::H5 => 5,
        HeadingLevel::H6 => 6,
    }
}

fn md_events(text: &str) -> Vec<MdEvent> {
    Parser::new(text)
        .map(|ev| match ev {
            Event::Start(Tag::Heading { level, .. }) => {
                MdEvent::HeadingStart { level: level_num(level) }
            }
            Event::End(TagEnd::Heading(_)) => MdEvent::HeadingEnd,
            Event::Start(Tag::Paragraph) => MdEvent::ParagraphStart,
            Event::End(TagEnd::Paragraph) => MdEvent::ParagraphEnd,
            Event::Start(Tag::List(_)) => MdEvent::ListStart,
            Event::End(TagEnd::List(_)) => MdEvent::ListEnd,
            Event::Start(Tag::Item) => MdEvent::ItemStart,
            Event::End(TagEnd::Item) => MdEvent::ItemEnd,
            Event::Start(Tag::CodeBlock(CodeBlockKind::Fenced(lang))) => {
                MdEvent::FencedCodeBlockStart { lang: lang.to_string() }
            }
            Event::End(TagEnd::CodeBlock) => MdEvent::CodeBlockEnd,
            Event::Start(Tag::Emphasis) => MdEvent::EmphasisStart,
            Event::End(TagEnd::Emphasis) => MdEvent::EmphasisEnd,
            Event::Start(Tag::Strong) => MdEvent::StrongStart,
            Event::End(TagEnd::Strong) => MdEvent::StrongEnd,
            Event::Start(Tag::Link { title, dest_url, .. }) => MdEvent::LinkStart {
                title: title.to_string(),
                dest_url: dest_url.to_string(),
            },
            Event::End(TagEnd::Link) => MdEvent::LinkEnd,
            Event::Text(t) => MdEvent::Text { text: t.to_string() },
            Event::Code(c) => MdEvent::Code { code: c.to_string() },
            Event::SoftBreak => MdEvent::SoftBreak,
            Event::HardBreak => MdEvent::HardBreak,
            _ => MdEvent::Other,
        })
        .collect()
}

fn guide_index(guide: &str) -> Help {
    Help::new(&md_events(guide), &Vec::new(), &Vec::new())
}

const TWO_LEVEL_GUIDE: &str =
    "# Intro\n\n## Topic A\n\nBody A\n\n### Sub A1\n\nBody sub";

#[test]
fn guide_round_trip() {
    let help = guide_index(TWO_LEVEL_GUIDE);
    assert_eq!(help.num_entries(), 2);
    let topic = help.get_help("topic_a");
    assert!(topic.starts_with("Topic A\n======="));
    assert!(topic.contains("Body A"));
    let sub = help.get_help("sub_a1");
    assert!(sub.contains("Body sub"));
    let topics = help.guide_topics();
    assert_eq!(topics.len(), 1);
    assert_eq!(topics[0], "Topic A");
}

#[test]
fn reference_round_trip() {
    let help = Help::new(
        &Vec::new(),
        &vec![md_events("# mymodule\n\n## fn\n\nDoes a thing")],
        &Vec::new(),
    );
    let out = help.get_help("mymodule.fn");
    assert!(out.starts_with("mymodule.fn\n==========="));
    assert!(out.contains("Does a thing"));
    assert_eq!(help.core_lib_names().len(), 1);
    assert_eq!(help.core_lib_names()[0], "mymodule");
    // the header had no overview body, so only the one entry exists
    assert_eq!(help.num_entries(), 1);
}

#[test]
fn reference_overview_entry_added_when_header_has_body() {
    let help = Help::new(
        &Vec::new(),
        &vec![md_events("# mymodule\n\nAn overview.\n\n## fn\n\nDoes a thing")],
        &Vec::new(),
    );
    assert_eq!(help.num_entries(), 2);
    let overview = help.get_help("mymodule");
    assert!(overview.starts_with("mymodule\n========"));
    assert!(overview.contains("An overview."));
}

#[test]
fn exact_lookup_is_case_and_space_insensitive() {
    let help = guide_index(TWO_LEVEL_GUIDE);
    let plain = help.get_help("Topic A");
    let padded = help.get_help("  TOPIC A  ");
    assert_eq!(plain, padded);
    assert_eq!(plain, help.get_help("topic_a"));
}

#[test]
fn unique_substring_match_formats_full_entry() {
    let help = guide_index(TWO_LEVEL_GUIDE);
    // "pic" occurs only in the key "topic_a"
    assert_eq!(help.get_help("pic"), help.get_help("Topic A"));
}

#[test]
fn exact_formatted_output() {
    let help = guide_index(TWO_LEVEL_GUIDE);
    assert_eq!(help.get_help("Topic A"), "Topic A\n=======\n  \n\nBody A");
}

#[test]
fn no_match_names_the_query() {
    let help = guide_index(TWO_LEVEL_GUIDE);
    assert_eq!(
        help.get_help("does not exist"),
        "No matches for 'does not exist' found."
    );
}

#[test]
fn ambiguous_match_lists_each_entry_in_order() {
    let help = guide_index(
        "# Intro\n\n## Alpha One\n\nFirst body\n\n## Alpha Two\n\nSecond body",
    );
    assert_eq!(
        help.get_help("alpha"),
        "More than one match found: \n  - Alpha One\n  - Alpha Two"
    );
}

#[test]
fn keyword_from_sub_section_matches_entry() {
    let help = guide_index(
        "# Intro\n\n## Topic\n\nBody\n\n### Sub\n\nSub body\n\n#### special_word\n\nDetail",
    );
    // "special_word" is a keyword of the sub-topic, not a key of its own
    assert_eq!(help.get_help("special_word"), help.get_help("Sub"));
}

#[test]
fn sub_section_collection_terminates_with_sentinel() {
    let events = md_events(
        "# intro\n\n## t\n\nbody\n\n### s1\n\nb1\n\n### s2\n\nb2\n\n### s3\n\nb3",
    );
    let mut pos = 0usize;
    let _intro = consume_help_section(&events, &mut pos, None, 1, false);
    let _topic = consume_help_section(&events, &mut pos, None, 2, false);
    let mut names = Vec::new();
    loop {
        let sub = consume_help_section(&events, &mut pos, None, 3, true);
        if sub.contents.trim().is_empty() {
            break;
        }
        names.push(sub.name);
    }
    assert_eq!(names, vec!["s1", "s2", "s3"]);
    // once the sentinel has been seen, further attempts stay blank
    let again = consume_help_section(&events, &mut pos, None, 3, true);
    assert!(again.contents.trim().is_empty());
}

#[test]
fn sub_section_names_become_keywords() {
    let events = md_events("## t\n\nbody\n\n### s\n\nsb\n\n#### k1\n\nx\n\n#### k2\n\ny");
    let mut pos = 0usize;
    let _topic = consume_help_section(&events, &mut pos, None, 2, false);
    let sub = consume_help_section(&events, &mut pos, None, 3, true);
    assert_eq!(sub.sub_sections, vec!["k1", "k2"]);
}

#[test]
fn module_prefix_applied_to_entry_names() {
    let events = md_events("## create\n\nMakes one");
    let mut pos = 0usize;
    let entry = consume_help_section(&events, &mut pos, Some("io"), 2, true);
    assert_eq!(entry.name, "io.create");
}

#[test]
fn check_marker_rendered_inside_code_block() {
    let help = Help::new(
        &Vec::new(),
        &vec![md_events(
            "# num\n\n## num.answer\n\nSample:\n\n```koto\ncheck! 42\n```",
        )],
        &Vec::new(),
    );
    let out = help.get_help("num.answer");
    assert!(out.contains("# \u{279d} 42"));
    assert!(out.contains("42"));
    assert!(!out.contains("check!"));
}

#[test]
fn later_insertion_overwrites_earlier_key() {
    let help = Help::new(
        &md_events("# Intro\n\n## Same Name\n\nOld body"),
        &Vec::new(),
        &vec![md_events("# Same Name\n\nNew body\n\n## entry\n\nE")],
    );
    let out = help.get_help("same_name");
    assert!(out.contains("New body"));
    assert!(!out.contains("Old body"));
}

#[test]
fn rendering_decorations_survive() {
    let help = guide_index(
        "# Intro\n\n## Marks\n\nSome _em_ and **strong** and `code` here\n\n- first\n- second",
    );
    let out = help.get_help("marks");
    assert!(out.contains("_em_"));
    assert!(out.contains("*strong*"));
    assert!(out.contains("`code`"));
    assert!(out.contains("\n- first"));
    assert!(out.contains("\n- second"));
}

#[test]
fn link_rendered_with_destination() {
    let help = guide_index(
        "# Intro\n\n## Linked\n\nSee [docs](https://example.test/x) now",
    );
    let out = help.get_help("linked");
    assert!(out.contains("](https://example.test/x)"));
}

#[test]
fn kototype_block_rendered_without_inner_fence() {
    let help = Help::new(
        &Vec::new(),
        &vec![md_events("# m\n\n## sig\n\n```kototype\nNumber -> Number  \n```")],
        &Vec::new(),
    );
    let out = help.get_help("m.sig");
    assert!(out.contains("Number -> Number\n"));
    assert!(out.contains("```koto"));
}
