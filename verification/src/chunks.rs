//! Splitting a secret into pieces that each fit one entry of the Windows
//! credential store (whose limit is counted in UTF-16 code units).
use vstd::prelude::*;
use crate::text::push_char;

verus! {

/// The most UTF-16 code units one chunk holds.
pub const KEYRING_CHUNK_UTF16_UNITS: usize = 1000;

/// How many UTF-16 code units encode `c`.
pub open spec fn char_utf16_len(c: char) -> nat {
    if c as u32 >= 0x10000 { 2 } else { 1 }
}

/// How many UTF-16 code units encode `s`.
pub open spec fn utf16_len(s: Seq<char>) -> nat
    decreases s.len(),
{
    if s.len() == 0 {
        0
    } else {
        utf16_len(s.drop_last()) + char_utf16_len(s.last())
    }
}

/// The contents of a list of strings.
pub open spec fn string_views(v: Seq<String>) -> Seq<Seq<char>> {
    v.map_values(|s: String| s@)
}

/// `chunks` is the greedy split of `value`: read in order the chunks give back
/// `value`, each fits the limit, none is empty unless `value` is, and each chunk
/// but the last is full, in that the first character of the next one would not
/// have fit into it.
#[verifier::opaque]
pub open spec fn is_greedy_split(value: Seq<char>, chunks: Seq<Seq<char>>) -> bool {
    &&& chunks.len() >= 1
    &&& chunks.flatten() == value
    &&& forall|i: int| 0 <= i < chunks.len() ==> utf16_len(#[trigger] chunks[i]) <= KEYRING_CHUNK_UTF16_UNITS
    &&& forall|i: int| 0 <= i < chunks.len() && value.len() > 0 ==> (#[trigger] chunks[i]).len() > 0
    &&& forall|i: int| 0 <= i < chunks.len() - 1 ==> utf16_len(#[trigger] chunks[i])
        + char_utf16_len(chunks[i + 1][0]) > KEYRING_CHUNK_UTF16_UNITS
}

/// How many UTF-16 code units encode `c` (`char::len_utf16`).
pub fn len_utf16(c: char) -> (n: usize)
    ensures
        n == char_utf16_len(c),
{
    if c as u32 >= 0x10000 { 2 } else { 1 }
}

proof fn lemma_utf16_push(s: Seq<char>, c: char)
    ensures
        utf16_len(s.push(c)) == utf16_len(s) + char_utf16_len(c),
{
    assert(s.push(c).drop_last() =~= s);
}

/// Splits a secret into the chunks that are stored one per credential entry.
pub fn split_keyring_value(value: &str) -> (chunks: Vec<String>)
    ensures
        is_greedy_split(value@, string_views(chunks@)),
{
    reveal(is_greedy_split);
    let mut chunks: Vec<String> = Vec::new();
    let mut chunk = String::new();
    let mut units: usize = 0;
    proof {
        let start = string_views(chunks@).push(chunk@);
        assert(start =~= seq![chunk@]);
        start.lemma_flatten_one_element();
        assert(value@.take(0) =~= Seq::<char>::empty());
        assert(utf16_len(chunk@) == 0);
    }
    for character in it: value.chars()
        invariant
            it.seq() == value@,
            units == utf16_len(chunk@),
            units <= KEYRING_CHUNK_UTF16_UNITS,
            string_views(chunks@).push(chunk@).flatten() == value@.take(it.index()),
            forall|i: int| 0 <= i < chunks@.len() ==> utf16_len(#[trigger] chunks@[i]@) <= KEYRING_CHUNK_UTF16_UNITS,
            forall|i: int| 0 <= i < chunks@.len() ==> (#[trigger] chunks@[i]@).len() > 0,
            chunks@.len() > 0 ==> chunk@.len() > 0,
            forall|i: int| 0 <= i < chunks@.len() - 1 ==> utf16_len(#[trigger] chunks@[i]@)
                + char_utf16_len(chunks@[i + 1]@[0]) > KEYRING_CHUNK_UTF16_UNITS,
            chunks@.len() > 0 && chunk@.len() > 0 ==> utf16_len(chunks@[chunks@.len() - 1]@)
                + char_utf16_len(chunk@[0]) > KEYRING_CHUNK_UTF16_UNITS,
    {
        let character_units = len_utf16(character);
        let ghost before = string_views(chunks@).push(chunk@);
        if units + character_units > KEYRING_CHUNK_UTF16_UNITS {
            proof {
                assert(string_views(chunks@.push(chunk)) =~= string_views(chunks@).push(chunk@));
                assert(string_views(chunks@.push(chunk)).push(Seq::<char>::empty()).flatten()
                    =~= before.flatten()) by {
                    string_views(chunks@.push(chunk)).lemma_flatten_push(Seq::<char>::empty());
                }
            }
            chunks.push(chunk);
            chunk = String::new();
            units = 0;
        }
        let ghost mid = string_views(chunks@);
        let ghost old_chunk = chunk@;
        push_char(&mut chunk, character);
        proof {
            lemma_utf16_push(old_chunk, character);
            mid.lemma_flatten_push(old_chunk);
            mid.lemma_flatten_push(chunk@);
            assert(value@.take(it.index() + 1) =~= value@.take(it.index()).push(character));
            assert(chunk@[0] == if old_chunk.len() == 0 { character } else { old_chunk[0] });
        }
        units = units + character_units;
    }
    proof {
        assert(value@.take(value@.len() as int) =~= value@);
    }
    let ghost last = chunk@;
    let ghost pre = string_views(chunks@).push(chunk@);
    assert(pre.flatten() == value@);
    chunks.push(chunk);
    proof {
        let views = string_views(chunks@);
        assert(views =~= pre);
        assert(views.flatten() == value@);
        assert forall|i: int| 0 <= i < views.len() implies utf16_len(#[trigger] views[i]) <= KEYRING_CHUNK_UTF16_UNITS by {
            assert(views[i] == chunks@[i]@);
        }
        assert forall|i: int| 0 <= i < views.len() - 1 implies utf16_len(#[trigger] views[i])
            + char_utf16_len(views[i + 1][0]) > KEYRING_CHUNK_UTF16_UNITS by {
            assert(views[i] == chunks@[i]@);
            assert(views[i + 1] == chunks@[i + 1]@);
        }
        assert forall|i: int| 0 <= i < views.len() && value@.len() > 0 implies (#[trigger] views[i]).len() > 0 by {
            assert(views[i] == chunks@[i]@);
            if i == views.len() - 1 && last.len() == 0 {
                assert(chunks@.len() == 1);
                assert(views =~= seq![last]);
                views.lemma_flatten_one_element();
            }
        }
        if value@.len() > 0 && last.len() == 0 {
            // an empty final chunk only happens with no chunks before it, so value would be empty
            assert(chunks@.len() == 1);
            assert(views =~= seq![last]);
            views.lemma_flatten_one_element();
        }
    }
    chunks
}

proof fn lemma_utf16_concat(a: Seq<char>, b: Seq<char>)
    ensures
        utf16_len(a + b) == utf16_len(a) + utf16_len(b),
    decreases b.len(),
{
    if b.len() == 0 {
        assert(a + b =~= a);
    } else {
        lemma_utf16_concat(a, b.drop_last());
        assert((a + b).drop_last() =~= a + b.drop_last());
    }
}

/// The greedy split of an empty value is the single empty chunk.
proof fn lemma_split_of_empty(chunks: Seq<Seq<char>>)
    requires
        is_greedy_split(Seq::empty(), chunks),
    ensures
        chunks =~= seq![Seq::<char>::empty()],
{
    reveal(is_greedy_split);
    assert(chunks.flatten() == Seq::<char>::empty());
    chunks.lemma_flatten_and_flatten_alt_are_equivalent();
    assert forall|i: int| 0 <= i < chunks.len() implies (#[trigger] chunks[i]).len() == 0 by {
        chunks.lemma_flatten_length_ge_single_element_length(i);
    }
    if chunks.len() >= 2 {
        assert(utf16_len(chunks[0]) + char_utf16_len(chunks[1][0]) > KEYRING_CHUNK_UTF16_UNITS);
        assert(chunks[0] =~= Seq::<char>::empty());
    }
}

/// The first chunk of a greedy split is a prefix of the value, and the rest splits the remainder.
proof fn lemma_split_front(value: Seq<char>, chunks: Seq<Seq<char>>)
    requires
        is_greedy_split(value, chunks),
    ensures
        chunks.len() >= 1,
        value.len() > 0 ==> chunks[0].len() > 0,
        value == chunks[0] + chunks.drop_first().flatten(),
        chunks[0] == value.take(chunks[0].len() as int),
        chunks.len() == 1 ==> chunks[0] == value,
        value.len() > 0 && chunks.len() >= 2 ==> {
            &&& chunks[1].len() > 0
            &&& chunks[1][0] == value[chunks[0].len() as int]
            &&& chunks[0].len() < value.len()
            &&& is_greedy_split(value.skip(chunks[0].len() as int), chunks.drop_first())
        },
{
    reveal(is_greedy_split);
    let x = chunks[0];
    let rest = chunks.drop_first();
    assert(value == x + rest.flatten());
    assert(x =~= value.take(x.len() as int));
    if chunks.len() == 1 {
        assert(rest =~= Seq::<Seq<char>>::empty());
        assert(value =~= x);
    }
    if value.len() > 0 && chunks.len() >= 2 {
        assert(rest[0] == chunks[1]);
        assert(chunks[1].len() > 0);
        assert(rest.flatten() == rest[0] + rest.drop_first().flatten());
        assert(value[x.len() as int] == rest.flatten()[0]);
        assert(value.skip(x.len() as int) =~= rest.flatten());
        assert forall|i: int| 0 <= i < rest.len() implies utf16_len(#[trigger] rest[i]) <= KEYRING_CHUNK_UTF16_UNITS by {
            assert(rest[i] == chunks[i + 1]);
        }
        assert forall|i: int| 0 <= i < rest.len() && value.skip(x.len() as int).len() > 0 implies (#[trigger] rest[i]).len() > 0 by {
            assert(rest[i] == chunks[i + 1]);
        }
        assert forall|i: int| 0 <= i < rest.len() - 1 implies utf16_len(#[trigger] rest[i])
            + char_utf16_len(rest[i + 1][0]) > KEYRING_CHUNK_UTF16_UNITS by {
            assert(rest[i] == chunks[i + 1]);
            assert(rest[i + 1] == chunks[i + 2]);
        }
    }
}

/// A greedy split of the value with a shorter first chunk than another one cannot exist:
/// the character after its first chunk would still have fit.
proof fn lemma_first_chunk_not_shorter(value: Seq<char>, a: Seq<Seq<char>>, b: Seq<Seq<char>>)
    requires
        is_greedy_split(value, a),
        is_greedy_split(value, b),
        value.len() > 0,
    ensures
        a[0].len() >= b[0].len(),
{
    reveal(is_greedy_split);
    lemma_split_front(value, a);
    lemma_split_front(value, b);
    let x = a[0];
    let y = b[0];
    if x.len() < y.len() {
        if a.len() == 1 {
            assert(y.len() <= value.len());
        } else {
            let k = x.len() as int;
            assert(y == value.take(y.len() as int));
            assert(y.take(k + 1) =~= x.push(value[k]));
            assert(y =~= y.take(k + 1) + y.skip(k + 1));
            lemma_utf16_concat(y.take(k + 1), y.skip(k + 1));
            lemma_utf16_push(x, value[k]);
            assert(utf16_len(y) >= utf16_len(x) + char_utf16_len(value[k]));
            assert(utf16_len(a[0]) + char_utf16_len(a[1][0]) > KEYRING_CHUNK_UTF16_UNITS);
        }
    }
}

/// A value has one greedy split only: the chunks stored for a token are fixed by the token.
pub proof fn law_greedy_split_is_unique(value: Seq<char>, a: Seq<Seq<char>>, b: Seq<Seq<char>>)
    requires
        is_greedy_split(value, a),
        is_greedy_split(value, b),
    ensures
        a == b,
    decreases value.len(),
{
    if value.len() == 0 {
        assert(value =~= Seq::<char>::empty());
        lemma_split_of_empty(a);
        lemma_split_of_empty(b);
    } else {
        lemma_first_chunk_not_shorter(value, a, b);
        lemma_first_chunk_not_shorter(value, b, a);
        lemma_split_front(value, a);
        lemma_split_front(value, b);
        let n = a[0].len() as int;
        assert(a[0] =~= b[0]);
        if a.len() == 1 {
            assert(b.len() == 1);
            assert(a =~= b);
        } else if b.len() == 1 {
            assert(a.len() == 1);
        } else {
            let ra = a.drop_first();
            let rb = b.drop_first();
            assert(value.skip(n).len() < value.len());
            law_greedy_split_is_unique(value.skip(n), ra, rb);
            assert(a =~= seq![a[0]] + ra);
            assert(b =~= seq![b[0]] + rb);
        }
    }
}

} // verus!
