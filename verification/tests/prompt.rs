use voxurf::prompt::{cut_index, fenced_lines, join_strings, render_prompt, split_lines, substitute};
use voxurf::text::{chars_of, string_of};

const TEMPLATE: &str = "Tree:\n{{ tree_text }}\nCommand: {{ user_command }}\n{{ previous_actions_cutoff }}\nDone so far:\n{{ previous_actions }}\nGo on.";

#[test]
fn first_trip_drops_the_section_for_earlier_trips() {
    let prompt = render_prompt(TEMPLATE, "- [0] \"a\"\n", "Search for foobar.", &vec![]);
    assert_eq!(prompt, "Tree:\n- [0] \"a\"\n\nCommand: Search for foobar.");
}

#[test]
fn later_trips_list_the_earlier_descriptions() {
    let log = vec!["opened the menu".to_string(), "typed foobar".to_string()];
    let prompt = render_prompt(TEMPLATE, "T", "C", &log);
    assert_eq!(
        prompt,
        "Tree:\nT\nCommand: C\n\nDone so far:\n- opened the menu\n- typed foobar\nGo on."
    );
}

#[test]
fn single_earlier_description_is_one_item() {
    let prompt = render_prompt(TEMPLATE, "T", "C", &vec!["one".to_string()]);
    assert_eq!(prompt, "Tree:\nT\nCommand: C\n\nDone so far:\n- one\nGo on.");
}

#[test]
fn template_without_cutoff_is_only_trimmed_on_the_first_trip() {
    let prompt = render_prompt("  {{ user_command }}: {{ tree_text }} \n", "T", "C", &vec![]);
    assert_eq!(prompt, "C: T");
}

#[test]
fn rendering_agrees_with_the_standard_string_functions() {
    let tree = "- [0] \"{{ user_command }}\"\n";
    let command = "say {{ previous_actions }}";
    for log in [vec![], vec!["a".to_string()], vec!["a".to_string(), "b c".to_string()]] {
        let list = if log.is_empty() { String::new() } else { format!("- {}", log.join("\n- ")) };
        let filled = TEMPLATE
            .replace("{{ tree_text }}", tree)
            .replace("{{ user_command }}", command)
            .replace("{{ previous_actions }}", &list);
        let expected = if log.is_empty() {
            filled.split("{{ previous_actions_cutoff }}").next().unwrap().trim().to_string()
        } else {
            filled.replace("{{ previous_actions_cutoff }}", "")
        };
        assert_eq!(render_prompt(TEMPLATE, tree, command, &log), expected);
    }
}

#[test]
fn substitution_replaces_every_occurrence_from_the_left() {
    let sub = |s: &str, pat: &str, with: &str| string_of(&substitute(&chars_of(s), &chars_of(pat), &chars_of(with)));
    assert_eq!(sub("a-b-c", "-", "+"), "a+b+c");
    assert_eq!(sub("aaa", "aa", "b"), "ba");
    assert_eq!(sub("abc", "x", "y"), "abc");
    assert_eq!(sub("", "x", "y"), "");
    assert_eq!(sub("xx", "x", ""), "");
    assert_eq!(sub("ab", "abc", "z"), "ab");
    for (s, pat, with) in [("{{a}}{{a}}", "{{a}}", "{{a}}x"), ("abcabc", "bc", "cb"), ("aXbXc", "X", "XX")] {
        assert_eq!(sub(s, pat, with), s.replace(pat, with));
    }
}

#[test]
fn cut_index_is_where_the_marker_starts() {
    assert_eq!(cut_index(&chars_of("ab--cd--"), &chars_of("--")), 2);
    assert_eq!(cut_index(&chars_of("abcd"), &chars_of("--")), 4);
    assert_eq!(cut_index(&chars_of("--ab"), &chars_of("--")), 0);
}

#[test]
fn joining_puts_the_separator_between_parts() {
    assert_eq!(join_strings(&vec![], "\n"), "");
    assert_eq!(join_strings(&vec!["a".to_string()], "\n"), "a");
    assert_eq!(join_strings(&vec!["a".to_string(), "b".to_string(), "".to_string()], ", "), "a, b, ");
}

#[test]
fn lines_agree_with_the_standard_library() {
    for text in ["", "a", "a\n", "a\nb", "a\r\nb\r\n", "\n", "\n\n", "a\n\nb", "a\rb", "a\r", "\r\n", "x\n\r\ny\r"] {
        let expected: Vec<String> = text.lines().map(|l| l.to_string()).collect();
        assert_eq!(split_lines(text), expected, "lines of {text:?}");
    }
}

#[test]
fn fenced_block_is_what_stands_between_the_markers() {
    let answer = "I will click.\n```\nCLICK 3\nFINISH clicked\n```\nThat is all.\n```\nCLICK 9\n```";
    assert_eq!(fenced_lines(answer), vec!["CLICK 3".to_string(), "FINISH clicked".to_string()]);
}

#[test]
fn answer_without_fence_has_no_lines() {
    assert!(fenced_lines("CLICK 3\nFINISH done").is_empty());
    assert!(fenced_lines("").is_empty());
}

#[test]
fn unclosed_fence_runs_to_the_end() {
    assert_eq!(fenced_lines("```\nCLICK 3"), vec!["CLICK 3".to_string()]);
    assert!(fenced_lines("text\n```").is_empty());
}

#[test]
fn fence_marker_must_be_the_whole_line() {
    // A marker with a language tag is no marker: the next bare one opens.
    assert_eq!(fenced_lines("```text\nCLICK 3\n```\nCLICK 4\n"), vec!["CLICK 4".to_string()]);
    assert!(fenced_lines(" ```\nCLICK 3\n ```").is_empty());
}

#[test]
fn empty_fenced_block_has_no_lines() {
    assert!(fenced_lines("```\n```").is_empty());
    assert_eq!(fenced_lines("```\r\n\r\nWAIT x\r\n```\r\n"), vec!["".to_string(), "WAIT x".to_string()]);
}
