//! Display names: an adjective and a noun, each drawn at random from a
//! list of words that comes as text with one word per line.

use vstd::prelude::*;
use rand::seq::SliceRandom;

verus! {

/// The name given when the word lists cannot be had.
pub const NAME_PLACEHOLDER: &'static str = "IO Error :D";

/// A line break begins at place `at` of `s`: a carriage return there, and
/// a line feed directly after it.
pub open spec fn breaks_at(s: Seq<char>, at: int) -> bool {
    0 <= at && at + 1 < s.len() && s[at] == '\r' && s[at + 1] == '\n'
}

/// Some line break begins in `s`.
pub open spec fn has_break(s: Seq<char>) -> bool {
    exists|at: int| breaks_at(s, at)
}

/// The lines of `s` from `start` on, where no line break begins at a place
/// from `start` up to `at`.
pub open spec fn lines_from(s: Seq<char>, start: int, at: int) -> Seq<Seq<char>>
    decreases s.len() - at,
{
    if at < 0 || at + 1 >= s.len() {
        seq![s.subrange(start, s.len() as int)]
    } else if breaks_at(s, at) {
        seq![s.subrange(start, at)] + lines_from(s, at + 2, at + 2)
    } else {
        lines_from(s, start, at + 1)
    }
}

/// The lines of `s`: what stands between its line breaks, read from the
/// left. A text without a line break is one line, the empty text too.
pub open spec fn lines(s: Seq<char>) -> Seq<Seq<char>> {
    lines_from(s, 0, 0)
}

/// The parts with a line break between each two of them.
pub open spec fn joined(parts: Seq<Seq<char>>) -> Seq<char>
    decreases parts.len(),
{
    if parts.len() == 0 {
        Seq::empty()
    } else if parts.len() == 1 {
        parts[0]
    } else {
        parts[0] + seq!['\r', '\n'] + joined(parts.drop_first())
    }
}

/// `parts` are lines: there is at least one, and none holds a line break.
pub open spec fn are_lines(parts: Seq<Seq<char>>) -> bool {
    &&& parts.len() >= 1
    &&& forall|k: int| 0 <= k < parts.len() ==> !has_break(#[trigger] parts[k])
}

/// The texts of a sequence of strings, one for one.
pub open spec fn texts(words: Seq<String>) -> Seq<Seq<char>> {
    words.map_values(|w: String| w@)
}

/// An adjective and a noun with one space between them.
pub open spec fn full_name(adjective: Seq<char>, noun: Seq<char>) -> Seq<char> {
    adjective + seq![' '] + noun
}

/// `name` is some line of `adjectives`, a space, and some line of `nouns`.
pub open spec fn is_name_from(name: Seq<char>, nouns: Seq<char>, adjectives: Seq<char>) -> bool {
    exists|adjective: Seq<char>, noun: Seq<char>|
        lines(adjectives).contains(adjective) && lines(nouns).contains(noun) && name
            == #[trigger] full_name(adjective, noun)
}

/// `String::push` appends one character, as its documentation says.
pub assume_specification[ String::push ](s: &mut String, ch: char)
    ensures
        final(s)@ == old(s)@.push(ch),
;

/// Shuffles `words` in place with `rand::seq::SliceRandom::shuffle`, drawing
/// from the generator that `rand::thread_rng` hands out. Trusted: the
/// shuffle only swaps elements, so the same strings are there afterwards,
/// each as often as before. Nothing is claimed about their order. The call
/// panics where the generator cannot be seeded from the system.
#[verifier::external_body]
pub(crate) fn shuffle(words: &mut Vec<String>)
    ensures
        final(words)@.to_multiset() == old(words)@.to_multiset(),
{
    words.shuffle(&mut rand::thread_rng());
}

/// Splits `text` into its lines.
pub fn split_lines(text: &str) -> (found: Vec<String>)
    ensures
        texts(found@) == lines(text@),
        found.len() >= 1,
{
    let ghost s = text@;
    let mut found: Vec<String> = Vec::new();
    let mut line = String::new();
    // a carriage return that was read and may yet begin a line break
    let mut held = false;
    for c in it: text.chars()
        invariant
            it.seq() == s,
            held ==> it.index() >= 1 && s[it.index() - 1] == '\r',
            line@.len() + (if held { 1int } else { 0int }) <= it.index(),
            ({
                let at = it.index() - (if held { 1int } else { 0int });
                &&& line@ == s.subrange(at - line@.len(), at)
                &&& texts(found@) + lines_from(s, at - line@.len(), at) == lines(s)
            }),
    {
        let ghost i = it.index() as int;
        let ghost start = i - (if held { 1int } else { 0int }) - line@.len();
        let ghost so_far = found@;
        if held && c == '\n' {
            held = false;
            found.push(line);
            line = String::new();
            proof {
                assert(breaks_at(s, i - 1));
                assert(lines_from(s, start, i - 1) == seq![s.subrange(start, i - 1)] + lines_from(
                    s,
                    i + 1,
                    i + 1,
                ));
                assert(texts(found@) =~= texts(so_far) + seq![s.subrange(start, i - 1)]);
                assert(texts(found@) + lines_from(s, i + 1, i + 1) =~= texts(so_far) + (seq![
                    s.subrange(start, i - 1),
                ] + lines_from(s, i + 1, i + 1)));
                assert(line@ =~= s.subrange(i + 1, i + 1));
            }
        } else {
            if held {
                held = false;
                line.push('\r');
                assert(line@ =~= s.subrange(start, i));
                assert(lines_from(s, start, i - 1) == lines_from(s, start, i));
            }
            if c == '\r' {
                held = true;
            } else {
                line.push(c);
                assert(line@ =~= s.subrange(start, i + 1));
                assert(lines_from(s, start, i) == lines_from(s, start, i + 1));
            }
        }
    }
    if held {
        line.push('\r');
    }
    assert(line@ =~= s.subrange(s.len() - line@.len(), s.len() as int));
    let ghost so_far = found@;
    let ghost last = line@;
    found.push(line);
    assert(texts(found@) =~= texts(so_far) + seq![last]);
    found
}

/// The name made of the first adjective and the first noun.
pub fn pair_up(adjectives: &Vec<String>, nouns: &Vec<String>) -> (name: String)
    requires
        adjectives.len() >= 1,
        nouns.len() >= 1,
    ensures
        name@ == full_name(adjectives[0]@, nouns[0]@),
{
    let mut name = adjectives[0].clone();
    name.push(' ');
    name.append(nouns[0].as_str());
    assert(name@ =~= full_name(adjectives[0]@, nouns[0]@));
    name
}

/// Makes a display name from two word lists, each given as text with one
/// word per line: a random adjective, a space, a random noun.
pub fn create_name(nouns: &str, adjectives: &str) -> (name: String)
    ensures
        is_name_from(name@, nouns@, adjectives@),
{
    let mut nouns_list = split_lines(nouns);
    let mut adjectives_list = split_lines(adjectives);
    let ghost nouns_before = nouns_list@;
    let ghost adjectives_before = adjectives_list@;
    shuffle(&mut nouns_list);
    shuffle(&mut adjectives_list);
    proof {
        lemma_first_is_among(nouns_before, nouns_list@);
        lemma_first_is_among(adjectives_before, adjectives_list@);
    }
    let name = pair_up(&adjectives_list, &nouns_list);
    assert(name@ == full_name(adjectives_list@[0]@, nouns_list@[0]@));
    name
}

/// The display name of a new participant: made from the word lists where
/// they could be read, the placeholder where they could not.
pub fn display_name(word_lists: Option<(String, String)>) -> (name: String)
    ensures
        match word_lists {
            Some((nouns, adjectives)) => is_name_from(name@, nouns@, adjectives@),
            None => name@ == NAME_PLACEHOLDER@,
        },
{
    match word_lists {
        Some((nouns, adjectives)) => create_name(nouns.as_str(), adjectives.as_str()),
        None => String::from_str(NAME_PLACEHOLDER),
    }
}

/// Reading on from `at` gives lines, and put together they are the text from `start` on.
proof fn lemma_lines_from(s: Seq<char>, start: int, at: int)
    requires
        0 <= start <= at <= s.len(),
        forall|i: int| start <= i < at ==> !breaks_at(s, i),
    ensures
        are_lines(lines_from(s, start, at)),
        joined(lines_from(s, start, at)) == s.subrange(start, s.len() as int),
    decreases s.len() - at,
{
    let found = lines_from(s, start, at);
    let end = s.len() as int;
    if at + 1 >= s.len() {
        let only = s.subrange(start, end);
        assert(!has_break(only)) by {
            if has_break(only) {
                let i = choose|i: int| breaks_at(only, i);
                assert(breaks_at(s, start + i));
            }
        }
    } else if breaks_at(s, at) {
        let head = s.subrange(start, at);
        let rest = lines_from(s, at + 2, at + 2);
        lemma_lines_from(s, at + 2, at + 2);
        assert(!has_break(head)) by {
            if has_break(head) {
                let i = choose|i: int| breaks_at(head, i);
                assert(breaks_at(s, start + i));
            }
        }
        assert(found.drop_first() =~= rest);
        assert(found[0] == head);
        assert forall|k: int| 0 <= k < found.len() implies !has_break(#[trigger] found[k]) by {
            if k > 0 {
                assert(found[k] == rest[k - 1]);
            }
        }
        assert(head + seq!['\r', '\n'] + s.subrange(at + 2, end) =~= s.subrange(start, end));
    } else {
        lemma_lines_from(s, start, at + 1);
    }
}

/// Lines that make up the text from `start` on are what reading on from `at`
/// gives, as long as `at` lies within the first of them.
proof fn lemma_lines_from_is_the_only_way(s: Seq<char>, start: int, at: int, parts: Seq<Seq<char>>)
    requires
        0 <= start <= at <= s.len(),
        are_lines(parts),
        joined(parts) == s.subrange(start, s.len() as int),
        at - start <= parts[0].len(),
    ensures
        lines_from(s, start, at) == parts,
    decreases s.len() - at,
{
    let end = s.len() as int;
    let tail = s.subrange(start, end);
    if parts.len() == 1 {
        assert(parts[0] == tail);
        if at + 1 >= s.len() {
            assert(lines_from(s, start, at) =~= parts);
        } else {
            assert(!breaks_at(s, at)) by {
                if breaks_at(s, at) {
                    assert(breaks_at(tail, at - start));
                }
            }
            lemma_lines_from_is_the_only_way(s, start, at + 1, parts);
        }
    } else {
        let head = parts[0];
        let rest = parts.drop_first();
        let n = head.len() as int;
        let cut = start + n;
        assert(tail == head + seq!['\r', '\n'] + joined(rest));
        assert(tail.len() == n + 2 + joined(rest).len());
        assert(s[cut] == tail[n]);
        assert(s[cut + 1] == tail[n + 1]);
        assert(breaks_at(s, cut));
        assert(are_lines(rest)) by {
            assert forall|k: int| 0 <= k < rest.len() implies !has_break(#[trigger] rest[k]) by {
                assert(rest[k] == parts[k + 1]);
            }
        }
        if at == cut {
            assert(s.subrange(start, at) =~= head) by {
                assert forall|i: int| 0 <= i < n implies s.subrange(start, at)[i] == head[i] by {
                    assert(s[start + i] == tail[i]);
                }
            }
            assert(joined(rest) =~= s.subrange(at + 2, end)) by {
                assert forall|i: int| 0 <= i < joined(rest).len() implies joined(rest)[i]
                    == s.subrange(at + 2, end)[i] by {
                    assert(s[at + 2 + i] == tail[n + 2 + i]);
                }
            }
            lemma_lines_from_is_the_only_way(s, at + 2, at + 2, rest);
            assert(lines_from(s, start, at) =~= parts);
        } else {
            assert(!breaks_at(s, at)) by {
                if breaks_at(s, at) {
                    if at + 1 < cut {
                        assert(head[at - start] == tail[at - start]);
                        assert(head[at - start + 1] == tail[at - start + 1]);
                        assert(breaks_at(head, at - start));
                    }
                }
            }
            lemma_lines_from_is_the_only_way(s, start, at + 1, parts);
        }
    }
}

/// The lines of a text are what splitting at line breaks should give: put
/// together again with a line break between each two they are the text, and
/// none of them holds a line break. No other sequence of texts does both.
pub proof fn law_lines_are_the_split(s: Seq<char>, parts: Seq<Seq<char>>)
    ensures
        are_lines(lines(s)),
        joined(lines(s)) == s,
        are_lines(parts) && joined(parts) == s ==> parts == lines(s),
{
    lemma_lines_from(s, 0, 0);
    assert(s.subrange(0, s.len() as int) =~= s);
    if are_lines(parts) && joined(parts) == s {
        lemma_lines_from_is_the_only_way(s, 0, 0, parts);
    }
}

/// After a shuffle of a list that is not empty, the word in front is one
/// of the words that the list held before.
proof fn lemma_first_is_among(before: Seq<String>, after: Seq<String>)
    requires
        before.len() >= 1,
        after.to_multiset() == before.to_multiset(),
    ensures
        after.len() >= 1,
        texts(before).contains(after[0]@),
{
    let first = after[0];
    vstd::seq_lib::to_multiset_len(after);
    vstd::seq_lib::to_multiset_len(before);
    assert(after.contains(first));
    vstd::seq_lib::to_multiset_contains(after, first);
    vstd::seq_lib::to_multiset_contains(before, first);
    assert(before.contains(first));
    let k = choose|k: int| 0 <= k < before.len() && before[k] == after[0];
    assert(texts(before)[k] == after[0]@);
}

} // verus!
