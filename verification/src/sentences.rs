//! Splitting a document into sentences.
//!
//! The periods of a fixed list of abbreviations are first hidden behind a
//! marker, wherever the abbreviation's characters occur. The text is then
//! read character by character: a period, exclamation mark or question mark
//! outside double quotes ends a sentence. Each sentence has its markers
//! turned back into periods and is trimmed; sentences of fewer than two
//! tokens are dropped at the end.
//!
//! The abbreviations are matched as plain substrings, not as words, so text
//! that merely contains the characters of one is masked as well, and a marker
//! that the document itself contains is turned into a period.

use vstd::prelude::*;
use crate::text::{
    chars_of, count_tokens_of, ends_with, has_suffix, is_whitespace, lemma_trim_end,
    lemma_trim_fixed, lemma_trim_start, replace, replace_all, string_of, texts, token_count, trim,
    trim_chars, trim_start,
};

verus! {

/// The abbreviations whose periods end no sentence, in the order in which
/// they are masked.
pub open spec fn abbreviations() -> Seq<Seq<char>> {
    seq![
        "Mr."@,
        "Mrs."@,
        "Ms."@,
        "Dr."@,
        "Prof."@,
        "St."@,
        "e.g."@,
        "i.e."@,
        "etc."@,
        "vs."@,
        "Ph.D."@,
        "M.D."@,
        "U.S."@,
        "U.K."@,
        "E.U."@,
        "a.m."@,
        "p.m."@,
    ]
}

/// What stands for a period inside a masked abbreviation.
pub open spec fn marker() -> Seq<char> {
    "##DOT##"@
}

/// A single period.
pub open spec fn period() -> Seq<char> {
    "."@
}

/// `s` with the periods of every occurrence of `abbreviation` masked.
pub open spec fn mask_one(s: Seq<char>, abbreviation: Seq<char>) -> Seq<char> {
    replace_all(s, abbreviation, replace_all(abbreviation, period(), marker()))
}

/// `s` after masking each of `list` in turn, the first of them first.
pub open spec fn mask_each(s: Seq<char>, list: Seq<Seq<char>>) -> Seq<char>
    decreases list.len(),
{
    if list.len() == 0 {
        s
    } else {
        mask_one(mask_each(s, list.drop_last()), list.last())
    }
}

/// `s` with the periods of all abbreviations masked.
pub open spec fn masked(s: Seq<char>) -> Seq<char> {
    mask_each(s, abbreviations())
}

/// Whether `c` can end a sentence.
pub open spec fn is_terminator(c: char) -> bool {
    c == '.' || c == '!' || c == '?'
}

/// Whether a buffer that ends in a terminator is a finished sentence: once
/// trimmed it is not empty and ends neither in an ellipsis, nor in two
/// periods, nor in a marker.
pub open spec fn closes_sentence(buffer: Seq<char>) -> bool {
    let t = trim(buffer);
    &&& !ends_with(t, "..."@)
    &&& !ends_with(t, ".."@)
    &&& !ends_with(t, marker())
    &&& t.len() > 0
}

/// The sentence that a buffer holds: markers turned back into periods, then
/// trimmed.
pub open spec fn restored(buffer: Seq<char>) -> Seq<char> {
    trim(replace_all(buffer, marker(), period()))
}

/// Where the scan of a text stands: the sentences finished so far, the
/// characters read since the last of them, and whether a double quote is open.
pub struct Scan {
    pub finished: Seq<Seq<char>>,
    pub buffer: Seq<char>,
    pub in_quotes: bool,
}

/// The scan after reading one more character.
pub open spec fn scan_step(before: Scan, c: char) -> Scan {
    let buffer = before.buffer.push(c);
    let in_quotes = if c == '"' {
        !before.in_quotes
    } else {
        before.in_quotes
    };
    if !in_quotes && is_terminator(c) && closes_sentence(buffer) {
        Scan { finished: before.finished.push(restored(buffer)), buffer: Seq::empty(), in_quotes }
    } else {
        Scan { finished: before.finished, buffer, in_quotes }
    }
}

/// The scan after reading all of `s`.
pub open spec fn scan(s: Seq<char>) -> Scan
    decreases s.len(),
{
    if s.len() == 0 {
        Scan { finished: Seq::empty(), buffer: Seq::empty(), in_quotes: false }
    } else {
        scan_step(scan(s.drop_last()), s.last())
    }
}

/// The sentences of a finished scan: what is left in the buffer counts as a
/// last sentence unless it is all white space.
pub open spec fn flushed(end: Scan) -> Seq<Seq<char>> {
    if trim(end.buffer).len() > 0 {
        end.finished.push(restored(end.buffer))
    } else {
        end.finished
    }
}

/// Every sentence of `text`, short ones included.
pub open spec fn raw_sentences(text: Seq<char>) -> Seq<Seq<char>> {
    flushed(scan(masked(text)))
}

/// Whether a sentence is long enough to keep: at least two tokens.
pub open spec fn long_enough(sentence: Seq<char>) -> bool {
    token_count(sentence) >= 2
}

/// The sentences of `text`, in the order in which they occur.
pub open spec fn sentences(text: Seq<char>) -> Seq<Seq<char>> {
    raw_sentences(text).filter(|s: Seq<char>| long_enough(s))
}

/// While no quote is open, what has been read since the last sentence does
/// not end in a period.
proof fn lemma_open_buffer(s: Seq<char>)
    ensures
        !scan(s).in_quotes ==> scan(s).buffer.len() == 0 || scan(s).buffer.last() != '.',
    decreases s.len(),
{
    if s.len() > 0 {
        let before = scan(s.drop_last());
        lemma_open_buffer(s.drop_last());
        if !before.in_quotes && is_terminator(s.last()) {
            lemma_closes(before.buffer, s.last());
        }
    }
}

/// A buffer that ends in a terminator, with no period right before it, is a
/// finished sentence.
proof fn lemma_closes(buffer: Seq<char>, c: char)
    requires
        is_terminator(c),
        buffer.len() == 0 || buffer.last() != '.',
    ensures
        closes_sentence(buffer.push(c)),
{
    reveal_strlit("...");
    reveal_strlit("..");
    reveal_strlit("##DOT##");
    let full = buffer.push(c);
    let k = lemma_trim_start(full);
    let tail = trim_start(full);
    assert(k < full.len()) by {
        if k == full.len() {
            assert(is_whitespace(full[full.len() - 1]));
        }
    }
    assert(tail.last() == c);
    let e = lemma_trim_end(tail);
    assert(e == tail.len());
    assert(tail.take(e) == tail);
    let t = trim(full);
    assert(t == full.skip(k));
    if ends_with(t, ".."@) {
        assert(t.skip(t.len() - 2)[0] == '.');
        assert(t[t.len() - 2] == buffer.last());
    }
    if ends_with(t, "..."@) {
        assert(t.skip(t.len() - 3)[1] == '.');
        assert(t[t.len() - 2] == buffer.last());
    }
    if ends_with(t, marker()) {
        assert(t.skip(t.len() - 7)[6] == '#');
    }
}

/// Every period, exclamation mark or question mark that is read while no
/// quote is open ends a sentence: what guards against ellipses and markers
/// never holds a sentence back.
pub proof fn lemma_terminator_ends_sentence(s: Seq<char>, c: char)
    requires
        is_terminator(c),
        !scan(s).in_quotes,
    ensures
        scan(s.push(c)) == (Scan {
            finished: scan(s).finished.push(restored(scan(s).buffer.push(c))),
            buffer: Seq::empty(),
            in_quotes: false,
        }),
{
    lemma_open_buffer(s);
    lemma_closes(scan(s).buffer, c);
    assert(s.push(c).drop_last() == s);
}

/// Whatever else is read is kept for the sentence to come; a double quote
/// opens or closes a quotation.
pub proof fn lemma_other_character_is_kept(s: Seq<char>, c: char)
    requires
        !is_terminator(c) || scan(s).in_quotes,
    ensures
        scan(s.push(c)) == (Scan {
            finished: scan(s).finished,
            buffer: scan(s).buffer.push(c),
            in_quotes: if c == '"' {
                !scan(s).in_quotes
            } else {
                scan(s).in_quotes
            },
        }),
{
    assert(s.push(c).drop_last() == s);
}

proof fn lemma_finished_trimmed(s: Seq<char>)
    ensures
        forall|i: int|
            0 <= i < scan(s).finished.len() ==> trim(#[trigger] scan(s).finished[i]) == scan(
                s,
            ).finished[i],
    decreases s.len(),
{
    if s.len() > 0 {
        let before = scan(s.drop_last());
        lemma_finished_trimmed(s.drop_last());
        lemma_trim_fixed(replace_all(before.buffer.push(s.last()), marker(), period()));
    }
}

/// Every sentence of a text is trimmed and has at least two tokens.
pub proof fn lemma_sentences_trimmed_and_long(text: Seq<char>)
    ensures
        forall|i: int|
            0 <= i < sentences(text).len() ==> {
                &&& trim(#[trigger] sentences(text)[i]) == sentences(text)[i]
                &&& token_count(sentences(text)[i]) >= 2
            },
{
    let end = scan(masked(text));
    let raw = raw_sentences(text);
    let keep = |s: Seq<char>| long_enough(s);
    lemma_finished_trimmed(masked(text));
    lemma_trim_fixed(replace_all(end.buffer, marker(), period()));
    broadcast use vstd::seq_lib::group_filter_ensures;
    assert forall|i: int| 0 <= i < sentences(text).len() implies {
        &&& trim(#[trigger] sentences(text)[i]) == sentences(text)[i]
        &&& token_count(sentences(text)[i]) >= 2
    } by {
        let x = raw.filter(keep)[i];
        assert(keep(x));
        assert(raw.filter(keep).contains(x));
        lemma_filter_keeps_members(raw, keep, x);
        let j = choose|j: int| 0 <= j < raw.len() && raw[j] == x;
        if j < end.finished.len() {
            assert(raw[j] == end.finished[j]);
        }
    }
}

proof fn lemma_filter_keeps_members(
    all: Seq<Seq<char>>,
    keep: spec_fn(Seq<char>) -> bool,
    x: Seq<char>,
)
    requires
        all.filter(keep).contains(x),
    ensures
        all.contains(x),
    decreases all.len(),
{
    reveal(Seq::filter);
    if all.len() > 0 {
        let rest = all.drop_last();
        if keep(all.last()) && x == all.last() {
            assert(all[all.len() - 1] == x);
        } else {
            if keep(all.last()) {
                let i = choose|i: int| 0 <= i < all.filter(keep).len() && all.filter(keep)[i] == x;
                assert(rest.filter(keep)[i] == x);
            }
            lemma_filter_keeps_members(rest, keep, x);
            let j = choose|j: int| 0 <= j < rest.len() && rest[j] == x;
            assert(all[j] == x);
        }
    }
}

/// The contents of a sequence of character vectors.
pub open spec fn rows(v: Seq<Vec<char>>) -> Seq<Seq<char>> {
    v.map_values(|row: Vec<char>| row@)
}

/// The abbreviations, as characters.
fn abbreviation_list() -> (list: Vec<Vec<char>>)
    ensures
        rows(list@) == abbreviations(),
{
    let names: Vec<&str> = vec![
        "Mr.",
        "Mrs.",
        "Ms.",
        "Dr.",
        "Prof.",
        "St.",
        "e.g.",
        "i.e.",
        "etc.",
        "vs.",
        "Ph.D.",
        "M.D.",
        "U.S.",
        "U.K.",
        "E.U.",
        "a.m.",
        "p.m.",
    ];
    let mut list: Vec<Vec<char>> = Vec::new();
    let mut k: usize = 0;
    while k < names.len()
        invariant
            k <= names.len(),
            list.len() == k,
            forall|j: int| 0 <= j < k ==> list@[j]@ == names@[j]@,
        decreases names.len() - k,
    {
        list.push(chars_of(names[k]));
        k += 1;
    }
    assert(rows(list@) =~= abbreviations());
    list
}

/// `text` with the periods of all abbreviations masked.
pub fn mask_abbreviations(text: &Vec<char>) -> (out: Vec<char>)
    ensures
        out@ == masked(text@),
{
    let list = abbreviation_list();
    let dot = chars_of(".");
    let mark = chars_of("##DOT##");
    let mut out: Vec<char> = text.clone();
    let mut k: usize = 0;
    assert(abbreviations().take(0) =~= Seq::<Seq<char>>::empty());
    while k < list.len()
        invariant
            k <= list.len(),
            rows(list@) == abbreviations(),
            dot@ == period(),
            mark@ == marker(),
            out@ == mask_each(text@, abbreviations().take(k as int)),
        decreases list.len() - k,
    {
        let ghost so_far = abbreviations().take(k + 1);
        assert(so_far.drop_last() == abbreviations().take(k as int));
        assert(so_far.last() == rows(list@)[k as int]);
        let hidden = replace(&list[k], &dot, &mark);
        out = replace(&out, &list[k], &hidden);
        k += 1;
    }
    assert(abbreviations().take(list.len() as int) == abbreviations());
    out
}

/// The sentence that `buffer` holds.
fn restore(buffer: &Vec<char>, mark: &Vec<char>, dot: &Vec<char>) -> (sentence: Vec<char>)
    requires
        mark@ == marker(),
        dot@ == period(),
    ensures
        sentence@ == restored(buffer@),
{
    let clean = replace(buffer, mark, dot);
    trim_chars(&clean)
}

/// Every sentence of `text`, short ones included.
pub fn split_raw(text: &Vec<char>) -> (found: Vec<Vec<char>>)
    ensures
        rows(found@) == raw_sentences(text@),
{
    let source = mask_abbreviations(text);
    let dot = chars_of(".");
    let mark = chars_of("##DOT##");
    let two_dots = chars_of("..");
    let three_dots = chars_of("...");
    let mut found: Vec<Vec<char>> = Vec::new();
    let mut buffer: Vec<char> = Vec::new();
    let mut in_quotes = false;
    let mut i: usize = 0;
    assert(rows(found@) =~= scan(source@.take(0)).finished);
    while i < source.len()
        invariant
            i <= source.len(),
            dot@ == period(),
            mark@ == marker(),
            two_dots@ == ".."@,
            three_dots@ == "..."@,
            rows(found@) == scan(source@.take(i as int)).finished,
            buffer@ == scan(source@.take(i as int)).buffer,
            in_quotes == scan(source@.take(i as int)).in_quotes,
        decreases source.len() - i,
    {
        let c = source[i];
        assert(source@.take(i + 1).drop_last() == source@.take(i as int));
        buffer.push(c);
        if c == '"' {
            in_quotes = !in_quotes;
        }
        if !in_quotes && (c == '.' || c == '!' || c == '?') {
            let trimmed = trim_chars(&buffer);
            let closes = !has_suffix(&trimmed, &three_dots) && !has_suffix(&trimmed, &two_dots)
                && !has_suffix(&trimmed, &mark) && trimmed.len() > 0;
            if closes {
                let sentence = restore(&buffer, &mark, &dot);
                assert(rows(found@.push(sentence)) =~= rows(found@).push(sentence@));
                found.push(sentence);
                buffer = Vec::new();
            }
        }
        i += 1;
    }
    assert(source@.take(source.len() as int) == source@);
    if trim_chars(&buffer).len() > 0 {
        let sentence = restore(&buffer, &mark, &dot);
        assert(rows(found@.push(sentence)) =~= rows(found@).push(sentence@));
        found.push(sentence);
    }
    found
}

/// Splits `text` into its sentences, in the order in which they occur, each
/// trimmed and of at least two tokens.
pub fn split_into_sentences(text: &str) -> (found: Vec<String>)
    ensures
        texts(found@) == sentences(text@),
{
    let chars = chars_of(text);
    let raw = split_raw(&chars);
    let ghost keep = |s: Seq<char>| long_enough(s);
    let mut found: Vec<String> = Vec::new();
    let mut i: usize = 0;
    proof {
        reveal(Seq::filter);
        assert(texts(found@) =~= rows(raw@).take(0).filter(keep));
    }
    while i < raw.len()
        invariant
            i <= raw.len(),
            keep == |s: Seq<char>| long_enough(s),
            texts(found@) == rows(raw@).take(i as int).filter(keep),
        decreases raw.len() - i,
    {
        proof {
            reveal(Seq::filter);
            assert(rows(raw@).take(i + 1).drop_last() == rows(raw@).take(i as int));
        }
        if count_tokens_of(&raw[i]) >= 2 {
            let sentence = string_of(&raw[i]);
            assert(texts(found@.push(sentence)) =~= texts(found@).push(sentence@));
            found.push(sentence);
        }
        i += 1;
    }
    assert(rows(raw@).take(raw.len() as int) == rows(raw@));
    found
}

} // verus!
