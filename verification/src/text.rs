//! Text: UTF-8, trimming, splitting and comparing.

use vstd::prelude::*;
use vstd::utf8::*;

verus! {

/// The standard library's error for bytes that are not UTF-8; carried, never looked into.
#[verifier::external_type_specification]
#[verifier::external_body]
pub struct ExUtf8Error(core::str::Utf8Error);

/// The error that `core::str::from_utf8` reports for bytes that are not UTF-8.
pub uninterp spec fn utf8_error(bytes: Seq<u8>) -> core::str::Utf8Error;

/// `core::str::from_utf8`: it accepts exactly the well-formed UTF-8 sequences, hands the same
/// bytes back as text, and otherwise reports an error that depends on the bytes alone.
pub assume_specification[ core::str::from_utf8 ](v: &[u8]) -> (res: Result<
    &str,
    core::str::Utf8Error,
>)
    ensures
        res is Ok <==> valid_utf8(v@),
        res matches Ok(s) ==> s@ == decode_utf8(v@),
        res matches Err(e) ==> e == utf8_error(v@),
;

/// The text that `String::from_utf8_lossy` makes of bytes that are not UTF-8.
pub uninterp spec fn utf8_replaced(bytes: Seq<u8>) -> Seq<char>;

/// The text of `bytes`, with a replacement for whatever in them is not UTF-8.
pub open spec fn lossy_text(bytes: Seq<u8>) -> Seq<char> {
    if valid_utf8(bytes) {
        decode_utf8(bytes)
    } else {
        utf8_replaced(bytes)
    }
}

/// `String::from_utf8_lossy`: well-formed UTF-8 comes back as the text that it encodes; what any
/// other bytes become depends on the bytes alone.
#[verifier::external_body]
pub(crate) fn from_utf8_lossy(v: &[u8]) -> (s: String)
    ensures
        s@ == (if valid_utf8(v@) {
            decode_utf8(v@)
        } else {
            utf8_replaced(v@)
        }),
{
    String::from_utf8_lossy(v).to_string()
}

/// `String::push` appends one character.
pub assume_specification[ String::push ](s: &mut String, ch: char)
    ensures
        final(s)@ == old(s)@.push(ch),
;

/// The Unicode property White_Space.
pub open spec fn is_white_space(c: char) -> bool {
    ||| '\u{9}' <= c <= '\u{d}'
    ||| c == ' '
    ||| c == '\u{85}'
    ||| c == '\u{a0}'
    ||| c == '\u{1680}'
    ||| '\u{2000}' <= c <= '\u{200a}'
    ||| c == '\u{2028}'
    ||| c == '\u{2029}'
    ||| c == '\u{202f}'
    ||| c == '\u{205f}'
    ||| c == '\u{3000}'
}

/// `text` without the white space that it starts with.
pub open spec fn trimmed_start(text: Seq<char>) -> Seq<char>
    decreases text.len(),
{
    if text.len() > 0 && is_white_space(text.first()) {
        trimmed_start(text.drop_first())
    } else {
        text
    }
}

/// `text` without the white space that it ends with.
pub open spec fn trimmed_end(text: Seq<char>) -> Seq<char>
    decreases text.len(),
{
    if text.len() > 0 && is_white_space(text.last()) {
        trimmed_end(text.drop_last())
    } else {
        text
    }
}

/// `text` without the white space at both ends.
pub open spec fn trimmed(text: Seq<char>) -> Seq<char> {
    trimmed_end(trimmed_start(text))
}

/// `str::trim` removes leading and trailing white space, as Unicode defines it.
pub assume_specification[ str::trim ](s: &str) -> (res: &str)
    ensures
        res@ == trimmed(s@),
;

/// The characters of `s`, one by one.
pub fn chars_of(s: &str) -> (v: Vec<char>)
    ensures
        v@ == s@,
{
    let mut v: Vec<char> = Vec::new();
    for c in it: s.chars()
        invariant
            v@ == it.seq().take(it.index() as int),
            it.seq() == s@,
    {
        v.push(c);
    }
    v
}

/// Whether two texts are the same.
pub fn same_text(a: &str, b: &str) -> (same: bool)
    ensures
        same == (a@ == b@),
{
    let x = chars_of(a);
    let y = chars_of(b);
    if x.len() != y.len() {
        return false;
    }
    assert(a@.take(b@.len() as int) == a@);
    starts_with(a, b)
}

/// Whether `text` starts with `prefix`.
pub fn starts_with(text: &str, prefix: &str) -> (found: bool)
    ensures
        found == prefix@.is_prefix_of(text@),
{
    let x = chars_of(text);
    let y = chars_of(prefix);
    if x.len() < y.len() {
        return false;
    }
    let mut i: usize = 0;
    while i < y.len()
        invariant
            i <= y.len() <= x.len(),
            x@ == text@,
            y@ == prefix@,
            prefix@.take(i as int) == text@.take(i as int),
        decreases y.len() - i,
    {
        if x[i] != y[i] {
            assert(text@.take(y.len() as int)[i as int] != prefix@[i as int]);
            return false;
        }
        assert(prefix@.take(i + 1) == prefix@.take(i as int).push(prefix@[i as int]));
        assert(text@.take(i + 1) == text@.take(i as int).push(text@[i as int]));
        i += 1;
    }
    assert(prefix@.take(y.len() as int) == prefix@);
    true
}

/// The pieces of `text` between the occurrences of `separator`; there is one more of them than
/// there are separators.
pub open spec fn pieces(text: Seq<char>, separator: char) -> Seq<Seq<char>>
    decreases text.len(),
{
    if text.len() == 0 {
        seq![Seq::empty()]
    } else {
        let before = pieces(text.drop_last(), separator);
        if text.last() == separator {
            before.push(Seq::empty())
        } else {
            before.drop_last().push(before.last().push(text.last()))
        }
    }
}

/// The texts in `strings`.
pub open spec fn texts(strings: Seq<String>) -> Seq<Seq<char>> {
    strings.map_values(|s: String| s@)
}

/// There is always a first piece.
pub proof fn lemma_pieces_nonempty(text: Seq<char>, separator: char)
    ensures
        pieces(text, separator).len() > 0,
    decreases text.len(),
{
    if text.len() > 0 {
        lemma_pieces_nonempty(text.drop_last(), separator);
    }
}

/// The pieces put together again, with `separator` between them.
pub open spec fn joined(parts: Seq<Seq<char>>, separator: char) -> Seq<char>
    decreases parts.len(),
{
    if parts.len() == 0 {
        Seq::empty()
    } else if parts.len() == 1 {
        parts[0]
    } else {
        joined(parts.drop_last(), separator).push(separator) + parts.last()
    }
}

/// Text without a separator goes to the last piece.
proof fn lemma_pieces_append(text: Seq<char>, more: Seq<char>, separator: char)
    requires
        !more.contains(separator),
    ensures
        pieces(text + more, separator) == pieces(text, separator).drop_last().push(
            pieces(text, separator).last() + more,
        ),
    decreases more.len(),
{
    lemma_pieces_nonempty(text, separator);
    let parts = pieces(text, separator);
    if more.len() == 0 {
        assert(text + more == text);
        assert(parts.last() + more == parts.last());
        assert(parts == parts.drop_last().push(parts.last()));
    } else {
        let less = more.drop_last();
        assert(forall|i: int| 0 <= i < less.len() ==> less[i] == more[i]);
        assert(more.last() == more[more.len() - 1]);
        lemma_pieces_append(text, less, separator);
        assert((text + more).drop_last() == text + less);
        let before = pieces(text + less, separator);
        assert(before.drop_last() == parts.drop_last());
        assert(before.last().push(more.last()) == parts.last() + more);
    }
}

/// Splitting what was joined gives the parts back, if none of them holds a separator.
pub proof fn law_joined_splits_back(parts: Seq<Seq<char>>, separator: char)
    requires
        parts.len() > 0,
        forall|i: int| 0 <= i < parts.len() ==> !(#[trigger] parts[i]).contains(separator),
    ensures
        pieces(joined(parts, separator), separator) == parts,
    decreases parts.len(),
{
    if parts.len() == 1 {
        let none = Seq::<char>::empty();
        lemma_pieces_append(none, parts[0], separator);
        assert(none + parts[0] == parts[0]);
        assert(pieces(none, separator) == seq![none]);
        assert(seq![none].drop_last().push(parts[0]) == parts);
    } else {
        let less = parts.drop_last();
        assert(forall|i: int| 0 <= i < less.len() ==> less[i] == parts[i]);
        law_joined_splits_back(less, separator);
        let head = joined(less, separator);
        assert(head.push(separator).drop_last() == head);
        assert(pieces(head.push(separator), separator) == less.push(Seq::empty()));
        assert(parts.last() == parts[parts.len() - 1]);
        lemma_pieces_append(head.push(separator), parts.last(), separator);
        assert(less.push(Seq::empty()).drop_last() == less);
        assert(Seq::<char>::empty() + parts.last() == parts.last());
        assert(less.push(parts.last()) == parts);
    }
}

/// The pieces of a text hold no separator, nothing that is not in the text, and joined they are
/// the text.
pub proof fn law_split_joins_back(text: Seq<char>, separator: char)
    ensures
        joined(pieces(text, separator), separator) == text,
        forall|i: int|
            0 <= i < pieces(text, separator).len() ==> !(#[trigger] pieces(
                text,
                separator,
            )[i]).contains(separator),
        forall|i: int, c: char|
            0 <= i < pieces(text, separator).len() && #[trigger] pieces(
                text,
                separator,
            )[i].contains(c) ==> text.contains(c),
    decreases text.len(),
{
    let parts = pieces(text, separator);
    if text.len() > 0 {
        let less = text.drop_last();
        let c = text.last();
        law_split_joins_back(less, separator);
        lemma_pieces_nonempty(less, separator);
        let before = pieces(less, separator);
        assert(text == less.push(c));
        assert(text.contains(c)) by {
            assert(text[text.len() - 1] == c);
        }
        assert forall|d: char| less.contains(d) implies text.contains(d) by {
            let i = choose|i: int| 0 <= i < less.len() && less[i] == d;
            assert(text[i] == d);
        }
        if c == separator {
            assert(parts.drop_last() == before);
            assert(joined(before, separator).push(separator) + Seq::empty() == text);
            assert forall|i: int, d: char|
                0 <= i < parts.len() && #[trigger] parts[i].contains(d) implies d != separator
                && text.contains(d) by {
                if i < before.len() {
                    assert(before[i].contains(d));
                }
            }
        } else {
            let last = before.last().push(c);
            assert(parts.last() == last);
            assert(parts.drop_last() == before.drop_last());
            if before.len() > 1 {
                let head = joined(before.drop_last(), separator).push(separator);
                assert(head + last == (head + before.last()).push(c));
            }
            assert forall|i: int, d: char|
                0 <= i < parts.len() && #[trigger] parts[i].contains(d) implies d != separator
                && text.contains(d) by {
                if i < before.len() - 1 {
                    assert(before[i].contains(d));
                } else {
                    let k = choose|k: int| 0 <= k < last.len() && last[k] == d;
                    if k < before.last().len() {
                        assert(before.last()[k] == d);
                        assert(before[before.len() - 1].contains(d));
                    }
                }
            }
        }
        assert forall|i: int| 0 <= i < parts.len() implies !(
        #[trigger] parts[i]).contains(separator) by {
            if parts[i].contains(separator) {
                assert(false);
            }
        }
    } else {
        assert(parts == seq![Seq::<char>::empty()]);
    }
}

/// Splits `text` at every `separator`.
pub fn split(text: &str, separator: char) -> (parts: Vec<String>)
    ensures
        texts(parts@) == pieces(text@, separator),
{
    let chars = chars_of(text);
    let mut parts: Vec<String> = Vec::new();
    let mut current = String::new();
    let mut i: usize = 0;
    assert(texts(parts@).push(current@) == pieces(text@.take(0), separator));
    while i < chars.len()
        invariant
            i <= chars.len(),
            chars@ == text@,
            texts(parts@).push(current@) == pieces(text@.take(i as int), separator),
        decreases chars.len() - i,
    {
        let c = chars[i];
        let ghost before = texts(parts@).push(current@);
        assert(text@.take(i + 1).drop_last() == text@.take(i as int));
        assert(before.drop_last() == texts(parts@));
        if c == separator {
            parts.push(current);
            current = String::new();
            assert(texts(parts@) == before);
        } else {
            current.push(c);
        }
        i += 1;
    }
    assert(text@.take(i as int) == text@);
    let ghost done = texts(parts@);
    parts.push(current);
    assert(texts(parts@) == done.push(current@));
    parts
}

/// Parts with a separator behind each are the parts joined, and a separator.
pub proof fn lemma_parts_ended(parts: Seq<Seq<char>>, separator: char)
    ensures
        parts.len() > 0 ==> parts.map_values(|part: Seq<char>| part.push(separator)).flatten()
            == joined(parts, separator).push(separator),
        parts.len() == 0 ==> parts.map_values(
            |part: Seq<char>| part.push(separator),
        ).flatten().len() == 0,
    decreases parts.len(),
{
    broadcast use vstd::seq_lib::group_seq_properties;

    let ended = |part: Seq<char>| part.push(separator);
    if parts.len() > 0 {
        let less = parts.drop_last();
        lemma_parts_ended(less, separator);
        assert(parts.map_values(ended) == less.map_values(ended).push(ended(parts.last())));
        less.map_values(ended).lemma_flatten_push(ended(parts.last()));
        if less.len() == 0 {
            assert(parts[0] == parts.last());
            assert(less.map_values(ended).flatten() + ended(parts.last()) == ended(parts.last()));
        } else {
            assert(joined(less, separator).push(separator) + ended(parts.last()) == joined(
                parts,
                separator,
            ).push(separator));
        }
    }
}

/// Text is split at every separator and nowhere else: no part holds a separator, and with one
/// behind each, the parts are the text with one behind it.
pub proof fn law_split(text: &str, separator: char, parts: Vec<String>)
    requires
        call_ensures(split, (text, separator), parts),
    ensures
        parts@.map_values(|part: String| part@.push(separator)).flatten() == text@.push(separator),
        forall|i: int| 0 <= i < parts@.len() ==> !(#[trigger] parts@[i])@.contains(separator),
{
    let all = texts(parts@);
    law_split_joins_back(text@, separator);
    lemma_pieces_nonempty(text@, separator);
    lemma_parts_ended(all, separator);
    assert(all.map_values(|part: Seq<char>| part.push(separator)) == parts@.map_values(
        |part: String| part@.push(separator),
    ));
    assert forall|i: int| 0 <= i < parts@.len() implies !(#[trigger] parts@[i])@.contains(
        separator,
    ) by {
        assert(all[i] == parts@[i]@);
    }
}

/// Text starts with a prefix where something can be put behind the prefix to make the text, and two
/// texts are the same where their characters are.
pub proof fn law_comparisons(
    text: &str,
    other: &str,
    chars: Vec<char>,
    found: bool,
    same: bool,
    rest: Seq<char>,
)
    requires
        call_ensures(chars_of, (text,), chars),
        call_ensures(starts_with, (text, other), found),
        call_ensures(same_text, (text, other), same),
    ensures
        chars@ == text@,
        found ==> text@ == other@ + text@.skip(other@.len() as int),
        text@ == other@ + rest ==> found,
        same <==> text@ == other@,
{
    if text@ == other@ + rest {
        assert(text@.take(other@.len() as int) == other@);
    }
    if found {
        assert(text@ == other@ + text@.skip(other@.len() as int));
    }
}

} // verus!
