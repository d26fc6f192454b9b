//! The prompt that is sent to the model, and the fenced block that is read
//! from its answer.

use crate::text::{chars_of, find, find_from, lemma_find, str_eq, string_of_range, trim, trim_bounds};
use vstd::prelude::*;

verus! {

/// Whether `s` begins with `pat`.
pub open spec fn starts_with(s: Seq<char>, pat: Seq<char>) -> bool {
    pat.len() <= s.len() && s.take(pat.len() as int) == pat
}

/// `s` with every occurrence of the non-empty pattern `pat` replaced by
/// `with`, found from left to right without overlap. With an empty pattern
/// the result is `s`.
pub open spec fn replace_all(s: Seq<char>, pat: Seq<char>, with: Seq<char>) -> Seq<char>
    decreases s.len(),
{
    if pat.len() == 0 || s.len() < pat.len() {
        s
    } else if starts_with(s, pat) {
        with + replace_all(s.skip(pat.len() as int), pat, with)
    } else {
        seq![s[0]] + replace_all(s.drop_first(), pat, with)
    }
}

/// The part of `s` before the first occurrence of `pat`; all of `s` if
/// `pat` does not occur.
pub open spec fn before_first(s: Seq<char>, pat: Seq<char>) -> Seq<char>
    decreases s.len(),
{
    if starts_with(s, pat) {
        Seq::empty()
    } else if s.len() == 0 {
        s
    } else {
        seq![s[0]] + before_first(s.drop_first(), pat)
    }
}

/// The parts, with `sep` between each two.
pub open spec fn join(parts: Seq<Seq<char>>, sep: Seq<char>) -> Seq<char>
    decreases parts.len(),
{
    if parts.len() == 0 {
        Seq::empty()
    } else if parts.len() == 1 {
        parts[0]
    } else {
        join(parts.drop_last(), sep) + sep + parts.last()
    }
}

/// The characters of a list of strings.
pub open spec fn strings_view(strings: Seq<String>) -> Seq<Seq<char>> {
    Seq::new(strings.len(), |i: int| strings[i]@)
}

/// The descriptions of the trips made so far as a list, one item per line;
/// nothing if there is none.
pub open spec fn previous_actions_text(log: Seq<Seq<char>>) -> Seq<char> {
    if log.len() == 0 {
        Seq::empty()
    } else {
        "- "@ + join(log, "\n- "@)
    }
}

/// The template with the tree, the command and the list of earlier trips
/// filled in, in that order.
pub open spec fn filled_template(
    template: Seq<char>,
    tree_text: Seq<char>,
    command: Seq<char>,
    log: Seq<Seq<char>>,
) -> Seq<char> {
    replace_all(
        replace_all(
            replace_all(template, "{{ tree_text }}"@, tree_text),
            "{{ user_command }}"@,
            command,
        ),
        "{{ previous_actions }}"@,
        previous_actions_text(log),
    )
}

/// The prompt for one trip. Without earlier trips the template is cut at
/// the cutoff marker and trimmed; with some, the marker is taken out.
pub open spec fn prompt_text(
    template: Seq<char>,
    tree_text: Seq<char>,
    command: Seq<char>,
    log: Seq<Seq<char>>,
) -> Seq<char> {
    let filled = filled_template(template, tree_text, command, log);
    if log.len() == 0 {
        trim(before_first(filled, "{{ previous_actions_cutoff }}"@))
    } else {
        replace_all(filled, "{{ previous_actions_cutoff }}"@, Seq::empty())
    }
}

/// A line without the carriage return that may end it.
pub open spec fn strip_cr(line: Seq<char>) -> Seq<char> {
    if line.len() > 0 && line.last() == '\r' {
        line.drop_last()
    } else {
        line
    }
}

/// The lines of a text. A line ends at a line feed, or at a carriage return
/// followed by one; the last line need not be ended.
pub open spec fn lines_of(s: Seq<char>) -> Seq<Seq<char>>
    decreases s.len(),
{
    if s.len() == 0 {
        Seq::empty()
    } else if find(s, '\n') >= s.len() {
        seq![s]
    } else {
        proof {
            lemma_find(s, '\n');
        }
        seq![strip_cr(s.take(find(s, '\n')))] + lines_of(s.skip(find(s, '\n') + 1))
    }
}

/// Index of the first line that is a fence marker, or `lines.len()`.
pub open spec fn fence_index(lines: Seq<Seq<char>>) -> int
    decreases lines.len(),
{
    if lines.len() == 0 || lines[0] == "```"@ {
        0
    } else {
        1 + fence_index(lines.drop_first())
    }
}

/// The lines strictly between the first fence marker and the next one (or
/// the end); nothing if there is no fence marker.
pub open spec fn fenced(lines: Seq<Seq<char>>) -> Seq<Seq<char>> {
    if fence_index(lines) >= lines.len() {
        Seq::empty()
    } else {
        let inside = lines.skip(fence_index(lines) + 1);
        inside.take(fence_index(inside))
    }
}

/// `fence_index` is the least index of a line that is a fence marker.
pub proof fn lemma_fence_index(lines: Seq<Seq<char>>)
    ensures
        0 <= fence_index(lines) <= lines.len(),
        forall|j: int| 0 <= j < fence_index(lines) ==> #[trigger] lines[j] != "```"@,
        fence_index(lines) < lines.len() ==> lines[fence_index(lines)] == "```"@,
    decreases lines.len(),
{
    if lines.len() == 0 || lines[0] == "```"@ {
    } else {
        let t = lines.drop_first();
        lemma_fence_index(t);
        assert forall|j: int| 0 <= j < fence_index(lines) implies #[trigger] lines[j]
            != "```"@ by {
            if j > 0 {
                assert(lines[j] == t[j - 1]);
            }
        }
    }
}

/// An index that holds a fence marker, with none before it, is
/// `fence_index`.
pub proof fn lemma_fence_index_is(lines: Seq<Seq<char>>, i: int)
    requires
        0 <= i <= lines.len(),
        forall|j: int| 0 <= j < i ==> #[trigger] lines[j] != "```"@,
        i < lines.len() ==> lines[i] == "```"@,
    ensures
        fence_index(lines) == i,
{
    lemma_fence_index(lines);
    let f = fence_index(lines);
    if f < i {
        assert(lines[f] != "```"@);
    } else if i < f {
        assert(lines[i] == "```"@);
    }
}

/// Whether `pat` occurs in `s` at index `at`.
fn matches_at(s: &Vec<char>, at: usize, pat: &Vec<char>) -> (r: bool)
    requires
        at <= s.len(),
    ensures
        r == starts_with(s@.skip(at as int), pat@),
{
    if pat.len() > s.len() - at {
        return false;
    }
    let mut k: usize = 0;
    while k < pat.len()
        invariant
            k <= pat.len(),
            at + pat.len() <= s.len(),
            forall|j: int| 0 <= j < k ==> s@[at + j] == pat@[j],
        decreases pat.len() - k,
    {
        if s[at + k] != pat[k] {
            proof {
                let t = s@.skip(at as int).take(pat.len() as int);
                assert(t[k as int] == s@[at + k]);
            }
            return false;
        }
        k += 1;
    }
    proof {
        let t = s@.skip(at as int).take(pat.len() as int);
        assert(t =~= pat@);
    }
    true
}

/// Replaces every occurrence of `pat` in `s` by `with`.
pub fn substitute(s: &Vec<char>, pat: &Vec<char>, with: &Vec<char>) -> (r: Vec<char>)
    requires
        pat.len() > 0,
    ensures
        r@ == replace_all(s@, pat@, with@),
{
    let mut out: Vec<char> = Vec::new();
    let mut i: usize = 0;
    proof {
        assert(s@.skip(0) =~= s@);
        assert(out@ + replace_all(s@, pat@, with@) =~= replace_all(s@, pat@, with@));
    }
    while i < s.len()
        invariant
            i <= s.len(),
            pat.len() > 0,
            out@ + replace_all(s@.skip(i as int), pat@, with@) == replace_all(s@, pat@, with@),
        decreases s.len() - i,
    {
        let ghost rest = s@.skip(i as int);
        if matches_at(s, i, pat) {
            let mut k: usize = 0;
            let ghost start = out@;
            while k < with.len()
                invariant
                    k <= with.len(),
                    out@ == start + with@.take(k as int),
                decreases with.len() - k,
            {
                out.push(with[k]);
                k += 1;
                assert(out@ =~= start + with@.take(k as int));
            }
            proof {
                assert(with@.take(with.len() as int) =~= with@);
                assert(rest.skip(pat.len() as int) =~= s@.skip(i + pat.len()));
                assert(out@ + replace_all(s@.skip(i + pat.len()), pat@, with@) =~= start
                    + replace_all(rest, pat@, with@));
            }
            i += pat.len();
        } else {
            out.push(s[i]);
            proof {
                assert(rest.drop_first() =~= s@.skip(i + 1));
                if rest.len() < pat.len() {
                    lemma_replace_short(rest, pat@, with@);
                    lemma_replace_short(rest.drop_first(), pat@, with@);
                    assert(seq![rest[0]] + rest.drop_first() =~= rest);
                }
                assert(replace_all(rest, pat@, with@) =~= seq![s@[i as int]] + replace_all(
                    s@.skip(i + 1),
                    pat@,
                    with@,
                ));
                assert(out@ + replace_all(s@.skip(i + 1), pat@, with@) =~= out@.drop_last() + (
                seq![s@[i as int]] + replace_all(s@.skip(i + 1), pat@, with@)));
            }
            i += 1;
        }
    }
    proof {
        assert(s@.skip(s.len() as int) =~= Seq::<char>::empty());
        assert(out@ + Seq::<char>::empty() =~= out@);
    }
    out
}

/// A text shorter than the pattern holds no occurrence of it.
proof fn lemma_replace_short(s: Seq<char>, pat: Seq<char>, with: Seq<char>)
    requires
        s.len() < pat.len(),
    ensures
        replace_all(s, pat, with) == s,
{
}

/// The length of the part of `s` before the first occurrence of `pat`.
pub fn cut_index(s: &Vec<char>, pat: &Vec<char>) -> (i: usize)
    ensures
        i <= s.len(),
        s@.take(i as int) == before_first(s@, pat@),
{
    let mut i: usize = 0;
    proof {
        assert(s@.skip(0) =~= s@);
        assert(s@.take(0) + before_first(s@, pat@) =~= before_first(s@, pat@));
    }
    while i < s.len() && !matches_at(s, i, pat)
        invariant
            i <= s.len(),
            s@.take(i as int) + before_first(s@.skip(i as int), pat@) == before_first(s@, pat@),
        decreases s.len() - i,
    {
        proof {
            let rest = s@.skip(i as int);
            assert(rest.drop_first() =~= s@.skip(i + 1));
            assert(s@.take(i + 1) + before_first(s@.skip(i + 1), pat@) =~= s@.take(i as int) + (
            seq![rest[0]] + before_first(rest.drop_first(), pat@)));
        }
        i += 1;
    }
    proof {
        let rest = s@.skip(i as int);
        if i == s.len() {
            assert(rest =~= Seq::<char>::empty());
            assert(before_first(rest, pat@) =~= Seq::<char>::empty());
        }
        assert(s@.take(i as int) + Seq::<char>::empty() =~= s@.take(i as int));
    }
    i
}

/// The strings joined, with `sep` between each two.
pub fn join_strings(parts: &Vec<String>, sep: &str) -> (r: String)
    ensures
        r@ == join(strings_view(parts@), sep@),
{
    let mut out = String::new();
    let ghost all = strings_view(parts@);
    let mut i: usize = 0;
    while i < parts.len()
        invariant
            i <= parts.len(),
            all == strings_view(parts@),
            out@ == join(all.take(i as int), sep@),
        decreases parts.len() - i,
    {
        if i > 0 {
            out.append(sep);
        }
        out.append(parts[i].as_str());
        proof {
            let t = all.take(i as int + 1);
            assert(t.drop_last() =~= all.take(i as int));
            assert(t.last() == parts@[i as int]@);
            if i == 0 {
                assert(out@ =~= parts@[0]@);
            }
        }
        i += 1;
    }
    proof {
        assert(all.take(parts.len() as int) =~= all);
    }
    out
}

/// Builds the prompt for one trip from the template, the text of the tree,
/// the user's command and the descriptions of the trips made so far.
pub fn render_prompt(
    template: &str,
    tree_text: &str,
    command: &str,
    previous_actions: &Vec<String>,
) -> (r: String)
    ensures
        r@ == prompt_text(template@, tree_text@, command@, strings_view(previous_actions@)),
{
    proof {
        reveal_strlit("{{ tree_text }}");
        reveal_strlit("{{ user_command }}");
        reveal_strlit("{{ previous_actions }}");
        reveal_strlit("{{ previous_actions_cutoff }}");
    }
    let ghost log = strings_view(previous_actions@);
    let mut list = String::new();
    if previous_actions.len() > 0 {
        list.append("- ");
        let joined = join_strings(previous_actions, "\n- ");
        list.append(joined.as_str());
    }
    assert(list@ =~= previous_actions_text(log));
    let first = substitute(&chars_of(template), &chars_of("{{ tree_text }}"), &chars_of(tree_text));
    let second = substitute(&first, &chars_of("{{ user_command }}"), &chars_of(command));
    let filled = substitute(&second, &chars_of("{{ previous_actions }}"), &chars_of(list.as_str()));
    assert(filled@ == filled_template(template@, tree_text@, command@, log));
    let marker = chars_of("{{ previous_actions_cutoff }}");
    if previous_actions.len() == 0 {
        let cut = cut_index(&filled, &marker);
        let (a, b) = trim_bounds(&filled, 0, cut);
        assert(filled@.subrange(0, cut as int) =~= filled@.take(cut as int));
        string_of_range(&filled, a, b)
    } else {
        let empty: Vec<char> = Vec::new();
        let cleared = substitute(&filled, &marker, &empty);
        let r = string_of_range(&cleared, 0, cleared.len());
        assert(cleared@.subrange(0, cleared.len() as int) =~= cleared@);
        assert(empty@ =~= Seq::<char>::empty());
        r
    }
}

/// Splits a text into its lines.
pub fn split_lines(text: &str) -> (r: Vec<String>)
    ensures
        strings_view(r@) == lines_of(text@),
{
    let cs = chars_of(text);
    let mut out: Vec<String> = Vec::new();
    let mut i: usize = 0;
    proof {
        assert(cs@.skip(0) =~= cs@);
        assert(strings_view(out@) + lines_of(cs@) =~= lines_of(cs@));
    }
    while i < cs.len()
        invariant
            i <= cs.len(),
            cs@ == text@,
            strings_view(out@) + lines_of(cs@.skip(i as int)) == lines_of(cs@),
        decreases cs.len() - i,
    {
        let ghost rest = cs@.skip(i as int);
        let ghost done = strings_view(out@);
        let end = find_from(&cs, '\n', i);
        proof {
            lemma_find(rest, '\n');
        }
        if end >= cs.len() {
            let line = string_of_range(&cs, i, cs.len());
            out.push(line);
            proof {
                assert(cs@.subrange(i as int, cs.len() as int) =~= rest);
                assert(cs@.skip(cs.len() as int) =~= Seq::<char>::empty());
                assert(strings_view(out@) =~= done + seq![rest]);
                assert(strings_view(out@) + lines_of(cs@.skip(cs.len() as int)) =~= done
                    + lines_of(rest));
            }
            i = cs.len();
        } else {
            let stop = if end > i && cs[end - 1] == '\r' {
                end - 1
            } else {
                end
            };
            let line = string_of_range(&cs, i, stop);
            out.push(line);
            proof {
                let raw = rest.take(find(rest, '\n'));
                assert(raw =~= cs@.subrange(i as int, end as int));
                assert(strip_cr(raw) =~= cs@.subrange(i as int, stop as int));
                assert(rest.skip(find(rest, '\n') + 1) =~= cs@.skip(end + 1));
                assert(strings_view(out@) =~= done + seq![strip_cr(raw)]);
                assert(strings_view(out@) + lines_of(cs@.skip(end + 1)) =~= done + lines_of(rest));
            }
            i = end + 1;
        }
    }
    proof {
        assert(cs@.skip(cs.len() as int) =~= Seq::<char>::empty());
        assert(strings_view(out@) + Seq::<Seq<char>>::empty() =~= strings_view(out@));
    }
    out
}

/// Index of the first fence marker at or after `from`, or `lines.len()`.
fn next_fence(lines: &Vec<String>, from: usize) -> (i: usize)
    requires
        from <= lines.len(),
    ensures
        from <= i <= lines.len(),
        i == from + fence_index(strings_view(lines@).skip(from as int)),
{
    let mut i: usize = from;
    while i < lines.len() && !str_eq(lines[i].as_str(), "```")
        invariant
            from <= i <= lines.len(),
            forall|j: int| from <= j < i ==> #[trigger] strings_view(lines@)[j] != "```"@,
        decreases lines.len() - i,
    {
        i += 1;
    }
    proof {
        let t = strings_view(lines@).skip(from as int);
        assert forall|j: int| 0 <= j < i - from implies #[trigger] t[j] != "```"@ by {
            assert(t[j] == strings_view(lines@)[from + j]);
        }
        if i < lines.len() {
            assert(t[i - from] == strings_view(lines@)[i as int]);
        }
        lemma_fence_index_is(t, i - from);
    }
    i
}

/// The lines of the first fenced block of the model's answer. Everything
/// outside the fence is dropped.
pub fn fenced_lines(response: &str) -> (r: Vec<String>)
    ensures
        strings_view(r@) == fenced(lines_of(response@)),
{
    let lines = split_lines(response);
    let ghost all = strings_view(lines@);
    let open = next_fence(&lines, 0);
    assert(all.skip(0) =~= all);
    let mut out: Vec<String> = Vec::new();
    if open >= lines.len() {
        assert(strings_view(out@) =~= Seq::<Seq<char>>::empty());
        return out;
    }
    let close = next_fence(&lines, open + 1);
    let ghost inside = all.skip(open + 1);
    let mut i: usize = open + 1;
    while i < close
        invariant
            open + 1 <= i <= close <= lines.len(),
            all == strings_view(lines@),
            strings_view(out@) == all.subrange(open + 1, i as int),
        decreases close - i,
    {
        let line = lines[i].clone();
        let ghost copied = strings_view(out@);
        let ghost held = out@;
        assert(line@ == all[i as int]);
        out.push(line);
        i += 1;
        proof {
            let want = all.subrange(open + 1, i as int);
            assert(copied.len() == held.len());
            assert forall|j: int| 0 <= j < want.len() implies strings_view(out@)[j] == want[j] by {
                if j < held.len() {
                    assert(out@[j] == held[j]);
                    assert(copied[j] == held[j]@);
                    assert(copied[j] == all.subrange(open + 1, i - 1)[j]);
                }
            }
            assert(strings_view(out@) =~= want);
        }
    }
    assert(all.subrange(open + 1, close as int) =~= inside.take(fence_index(inside)));
    out
}

} // verus!
