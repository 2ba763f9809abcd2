//! Keyboard editing for a single-line text input: typed characters are inserted at the
//! cursor, and Backspace, Delete, the arrow keys, Home and End edit or move it.
//!
//! The cursor is a byte offset into the UTF-8 encoding of the text and always sits on a
//! character boundary. The edit is specified over those bytes.

use crate::events::{routed, InteractionEvent, TargetedEvent};
use vstd::prelude::*;
use vstd::utf8::{
    decode_first_scalar, encode_scalar, encode_utf8, is_char_boundary, pop_first_scalar,
    valid_first_scalar, valid_utf8,
};

verus! {

broadcast use vstd::utf8::group_utf8_lib;

/// Named keys the text input reacts to (every other named key is `Other`).
#[derive(Debug, Clone, Copy, PartialEq, Eq, Structural)]
pub enum NamedKey {
    Backspace,
    Delete,
    ArrowLeft,
    ArrowRight,
    Home,
    End,
    Escape,
    Enter,
    Tab,
    Other,
}

/// A key press as reported by the windowing layer.
#[derive(Debug, Clone, PartialEq, Eq)]
pub enum Key {
    /// A key with a name (editing keys, arrows, ...).
    Named(NamedKey),
    /// A key that produces text.
    Character(String),
    /// A key the platform could not identify.
    Unidentified,
}

/// The keyboard input of one frame.
#[derive(Debug, Clone)]
pub struct InputState {
    /// Characters typed this frame, in order.
    pub characters_typed: Vec<char>,
    /// Keys pressed this frame, in order.
    pub keys_just_pressed: Vec<Key>,
}

/// The UTF-8 bytes of a text.
pub open spec fn text_bytes(s: Seq<char>) -> Seq<u8> {
    encode_utf8(s)
}

/// The bytes of `b` with the character starting at byte `p` removed.
pub open spec fn remove_at(b: Seq<u8>, p: int) -> Seq<u8> {
    b.take(p) + pop_first_scalar(b.skip(p))
}

/// The nearest character boundary at or before byte `i` (0 if there is none).
pub open spec fn prev_boundary(b: Seq<u8>, i: int) -> int
    decreases i,
{
    if i <= 0 {
        0
    } else if is_char_boundary(b, i) {
        i
    } else {
        prev_boundary(b, i - 1)
    }
}

/// The nearest character boundary at or after byte `i`, stopping at the end.
pub open spec fn next_boundary(b: Seq<u8>, i: int) -> int
    decreases b.len() - i,
{
    if i >= b.len() {
        i
    } else if is_char_boundary(b, i) {
        i
    } else {
        next_boundary(b, i + 1)
    }
}

/// Typing `ch` with the cursor at byte `c`: the character is inserted there and the
/// cursor moves past it (a cursor beyond the end types nothing).
pub open spec fn type_char(b: Seq<u8>, c: int, ch: char) -> (Seq<u8>, int) {
    if c <= b.len() {
        (b.take(c) + encode_scalar(ch as u32) + b.skip(c), c + encode_scalar(ch as u32).len())
    } else {
        (b, c)
    }
}

/// The text and cursor after typing the first `n` characters.
pub open spec fn type_chars(b: Seq<u8>, c: int, chars: Seq<char>, n: int) -> (Seq<u8>, int)
    decreases n,
{
    if n <= 0 {
        (b, c)
    } else {
        let (b1, c1) = type_chars(b, c, chars, n - 1);
        type_char(b1, c1, chars[n - 1])
    }
}

/// Total UTF-8 length of the first `n` characters.
pub open spec fn utf8_len(chars: Seq<char>, n: int) -> int
    decreases n,
{
    if n <= 0 {
        0
    } else {
        utf8_len(chars, n - 1) + encode_scalar(chars[n - 1] as u32).len()
    }
}

/// Pressing a key with the cursor at byte `c`: the new text, the new cursor, and
/// whether the text changed.
pub open spec fn press_key(b: Seq<u8>, c: int, key: Key) -> (Seq<u8>, int, bool) {
    match key {
        Key::Named(NamedKey::Backspace) => if c > 0 && b.len() > 0 {
            let p = prev_boundary(b, c - 1);
            (remove_at(b, p), p, true)
        } else {
            (b, c, false)
        },
        Key::Named(NamedKey::Delete) => if c < b.len() {
            (remove_at(b, c), c, true)
        } else {
            (b, c, false)
        },
        Key::Named(NamedKey::ArrowLeft) => if c > 0 {
            (b, prev_boundary(b, c - 1), false)
        } else {
            (b, c, false)
        },
        Key::Named(NamedKey::ArrowRight) => if c < b.len() {
            (b, next_boundary(b, c + 1), false)
        } else {
            (b, c, false)
        },
        Key::Named(NamedKey::Home) => (b, 0, false),
        Key::Named(NamedKey::End) => (b, b.len() as int, false),
        _ => (b, c, false),
    }
}

/// The text, cursor and "changed" flag after pressing the first `n` keys.
pub open spec fn press_keys(b: Seq<u8>, c: int, keys: Seq<Key>, n: int) -> (Seq<u8>, int, bool)
    decreases n,
{
    if n <= 0 {
        (b, c, false)
    } else {
        let (b1, c1, ch1) = press_keys(b, c, keys, n - 1);
        let (b2, c2, ch2) = press_key(b1, c1, keys[n - 1]);
        (b2, c2, ch1 || ch2)
    }
}

/// The whole frame: typed characters first, then the pressed keys. Typing
/// changes the text unless the cursor lies beyond its end.
pub open spec fn edit(b: Seq<u8>, c: int, input: InputState) -> (Seq<u8>, int, bool) {
    let (b1, c1) = type_chars(b, c, input.characters_typed@, input.characters_typed@.len() as int);
    let (b2, c2, ch) = press_keys(b1, c1, input.keys_just_pressed@, input.keys_just_pressed@.len() as int);
    (b2, c2, (input.characters_typed@.len() > 0 && c <= b.len()) || ch)
}

/// Whether a key can be pressed with the cursor at byte `c`: Backspace needs the
/// cursor within the text (when there is something before it to remove), and
/// Delete needs the cursor on a character boundary (when there is a character at it).
pub open spec fn key_allowed(b: Seq<u8>, c: int, key: Key) -> bool {
    match key {
        Key::Named(NamedKey::Backspace) => c > 0 && b.len() > 0 ==> c <= b.len(),
        Key::Named(NamedKey::Delete) => c < b.len() ==> is_char_boundary(b, c),
        _ => true,
    }
}

/// Whether each of the first `n` keys is allowed in the state the previous ones leave.
pub open spec fn keys_allowed(b: Seq<u8>, c: int, keys: Seq<Key>, n: int) -> bool
    decreases n,
{
    if n <= 0 {
        true
    } else {
        let (b1, c1, ch1) = press_keys(b, c, keys, n - 1);
        keys_allowed(b, c, keys, n - 1) && key_allowed(b1, c1, keys[n - 1])
    }
}

/// The frames that can be applied: typing needs the cursor on a character boundary
/// (or beyond the end, where it types nothing), and every key must be allowed.
pub open spec fn edit_allowed(b: Seq<u8>, c: int, input: InputState) -> bool {
    let (b1, c1) = type_chars(b, c, input.characters_typed@, input.characters_typed@.len() as int);
    &&& input.characters_typed@.len() > 0 && c <= b.len() ==> is_char_boundary(b, c)
    &&& keys_allowed(b1, c1, input.keys_just_pressed@, input.keys_just_pressed@.len() as int)
}

proof fn lemma_keys_allowed_prefix(b: Seq<u8>, c: int, keys: Seq<Key>, k: int, n: int)
    requires
        0 <= k < n,
        keys_allowed(b, c, keys, n),
    ensures
        keys_allowed(b, c, keys, k + 1),
    decreases n - k,
{
    if k + 1 < n {
        lemma_keys_allowed_prefix(b, c, keys, k, n - 1);
    }
}

/// A cursor beyond the end of the text types nothing.
proof fn lemma_type_chars_beyond(b: Seq<u8>, c: int, chars: Seq<char>, n: int)
    requires
        c > b.len(),
    ensures
        type_chars(b, c, chars, n) == (b, c),
    decreases n,
{
    if n > 0 {
        lemma_type_chars_beyond(b, c, chars, n - 1);
    }
}

/// Inserts `ch` at byte `idx`, by `String::insert`.
///
/// Trusted: the contract claims what std documents, that the UTF-8 bytes of the
/// result are the old bytes with the encoding of `ch` spliced in at `idx`. The call
/// panics when `idx` is not a character boundary, and on a length past `isize::MAX`
/// (capacity overflow); `requires` rules both out.
#[verifier::external_body]
fn string_insert(s: &mut String, idx: usize, ch: char)
    requires
        is_char_boundary(encode_utf8(old(s)@), idx as int),
        encode_utf8(old(s)@).len() + encode_scalar(ch as u32).len() <= isize::MAX,
    ensures
        encode_utf8(final(s)@) == encode_utf8(old(s)@).take(idx as int) + encode_scalar(ch as u32)
            + encode_utf8(old(s)@).skip(idx as int),
{
    s.insert(idx, ch)
}

/// Removes and returns the character starting at byte `idx`, by `String::remove`.
///
/// Trusted: the contract claims what std documents, that the returned character is
/// the one encoded at `idx` and that the result's bytes are the old bytes with that
/// encoding cut out. The call panics when `idx` is not a character boundary or is
/// at or past the end; `requires` rules both out.
#[verifier::external_body]
fn string_remove(s: &mut String, idx: usize) -> (r: char)
    requires
        is_char_boundary(encode_utf8(old(s)@), idx as int),
        idx < encode_utf8(old(s)@).len(),
    ensures
        r as u32 == decode_first_scalar(encode_utf8(old(s)@).skip(idx as int)),
        encode_utf8(final(s)@) == remove_at(encode_utf8(old(s)@), idx as int),
{
    s.remove(idx)
}

/// The number of bytes in the UTF-8 encoding of `ch`.
fn utf8_width(ch: char) -> (r: usize)
    ensures
        r == encode_scalar(ch as u32).len(),
{
    let v = ch as u32;
    if v <= 0x7F {
        1
    } else if v <= 0x7FF {
        2
    } else if v <= 0xFFFF {
        3
    } else {
        4
    }
}

/// The end of a valid prefix is a character boundary of the whole.
proof fn lemma_boundary_at_join(a: Seq<u8>, b: Seq<u8>)
    requires
        valid_utf8(a),
        valid_utf8(b),
    ensures
        valid_utf8(a + b),
        is_char_boundary(a + b, a.len() as int),
    decreases a.len(),
{
    vstd::utf8::valid_utf8_concat(a, b);
    if a.len() == 0 {
        assert(a + b =~= b);
    } else {
        let rest = pop_first_scalar(a);
        assert(valid_utf8(rest));
        assert((a + b).subrange(0, a.len() as int) =~= a);
        assert(pop_first_scalar(a + b) =~= rest + b);
        lemma_boundary_at_join(rest, b);
    }
}

/// Splitting valid UTF-8 at a boundary `p` before the end and dropping the character
/// there leaves valid UTF-8 with a boundary at `p`.
proof fn lemma_remove_at(b: Seq<u8>, p: int)
    requires
        valid_utf8(b),
        is_char_boundary(b, p),
        p < b.len(),
    ensures
        valid_utf8(remove_at(b, p)),
        is_char_boundary(remove_at(b, p), p),
        remove_at(b, p).len() < b.len(),
{
    vstd::utf8::valid_utf8_split(b, p);
    let tail = b.skip(p);
    assert(tail =~= b.subrange(p, b.len() as int));
    assert(b.take(p) =~= b.subrange(0, p));
    assert(valid_first_scalar(tail) && valid_utf8(pop_first_scalar(tail)));
    lemma_boundary_at_join(b.take(p), pop_first_scalar(tail));
}

/// Inserting the encoding of a character at a boundary leaves valid UTF-8 with a
/// boundary right after the inserted character.
proof fn lemma_insert_at(b: Seq<u8>, c: int, ch: char)
    requires
        valid_utf8(b),
        is_char_boundary(b, c),
    ensures
        ({
            let (nb, nc) = type_char(b, c, ch);
            valid_utf8(nb) && is_char_boundary(nb, nc)
        }),
{
    vstd::utf8::valid_utf8_split(b, c);
    vstd::utf8::is_char_boundary_start_end_of_seq(b);
    let e = encode_scalar(ch as u32);
    assert(encode_utf8(seq![ch]) =~= e + encode_utf8(seq![ch].drop_first()));
    assert(encode_utf8(seq![ch].drop_first()) =~= Seq::<u8>::empty());
    assert(e =~= encode_utf8(seq![ch]));
    assert(b.take(c) =~= b.subrange(0, c));
    assert(b.skip(c) =~= b.subrange(c, b.len() as int));
    lemma_boundary_at_join(b.take(c), e);
    lemma_boundary_at_join(b.take(c) + e, b.skip(c));
}

/// A previous boundary lies at or before its starting point and is a boundary.
proof fn lemma_prev_boundary(b: Seq<u8>, i: int)
    requires
        valid_utf8(b),
    ensures
        0 <= prev_boundary(b, i) <= if i < 0 {
            0
        } else {
            i
        },
        is_char_boundary(b, prev_boundary(b, i)),
    decreases i,
{
    vstd::utf8::is_char_boundary_start_end_of_seq(b);
    if i > 0 && !is_char_boundary(b, i) {
        lemma_prev_boundary(b, i - 1);
    }
}

/// A next boundary from inside the text is a boundary no further than the end.
proof fn lemma_next_boundary(b: Seq<u8>, i: int)
    requires
        valid_utf8(b),
        0 <= i <= b.len(),
    ensures
        i <= next_boundary(b, i) <= b.len(),
        is_char_boundary(b, next_boundary(b, i)),
    decreases b.len() - i,
{
    vstd::utf8::is_char_boundary_start_end_of_seq(b);
    if i < b.len() && !is_char_boundary(b, i) {
        lemma_next_boundary(b, i + 1);
    }
}

/// Typed text only grows the byte length.
proof fn lemma_utf8_len_mono(chars: Seq<char>, i: int, n: int)
    requires
        0 <= i <= n,
    ensures
        utf8_len(chars, i) <= utf8_len(chars, n),
    decreases n - i,
{
    if i < n {
        lemma_utf8_len_mono(chars, i, n - 1);
    }
}

/// The encoding of a character is a leading byte of its own width followed by
/// continuation bytes.
proof fn lemma_encoding_shape(ch: char)
    ensures
        1 <= encode_scalar(ch as u32).len() <= 4,
        valid_utf8(encode_scalar(ch as u32)),
        vstd::utf8::length_of_first_scalar(encode_scalar(ch as u32)) == encode_scalar(
            ch as u32,
        ).len(),
        forall|k: int|
            1 <= k < encode_scalar(ch as u32).len() ==> vstd::utf8::is_continuation_byte(
                #[trigger] encode_scalar(ch as u32)[k],
            ),
{
    let e = encode_scalar(ch as u32);
    assert(encode_utf8(seq![ch]) =~= e + encode_utf8(seq![ch].drop_first()));
    assert(encode_utf8(seq![ch].drop_first()) =~= Seq::<u8>::empty());
    assert(e =~= encode_utf8(seq![ch]));
    vstd::utf8::encode_utf8_first_scalar(seq![ch]);
}

/// Walking back from `j` over non-boundaries reaches the boundary `p`.
proof fn lemma_prev_boundary_walk(b: Seq<u8>, p: int, j: int)
    requires
        0 <= p <= j,
        is_char_boundary(b, p),
        forall|i: int| p < i <= j ==> !is_char_boundary(b, i),
    ensures
        prev_boundary(b, j) == p,
    decreases j - p,
{
    if j > p {
        lemma_prev_boundary_walk(b, p, j - 1);
    }
}

/// Walking forward from `j` over non-boundaries reaches the boundary `q`.
proof fn lemma_next_boundary_walk(b: Seq<u8>, q: int, j: int)
    requires
        j <= q <= b.len(),
        is_char_boundary(b, q),
        forall|i: int| j <= i < q ==> !is_char_boundary(b, i),
    ensures
        next_boundary(b, j) == q,
    decreases q - j,
{
    if j < q {
        lemma_next_boundary_walk(b, q, j + 1);
    }
}

/// Typing a character and then pressing Backspace gives back the text and the cursor
/// (and reports a change).
pub proof fn lemma_type_then_backspace(b: Seq<u8>, c: int, ch: char)
    requires
        valid_utf8(b),
        is_char_boundary(b, c),
    ensures
        ({
            let (b1, c1) = type_char(b, c, ch);
            press_key(b1, c1, Key::Named(NamedKey::Backspace)) == (b, c, true)
        }),
{
    let e = encode_scalar(ch as u32);
    let w = e.len() as int;
    let (b1, c1) = type_char(b, c, ch);
    lemma_encoding_shape(ch);
    lemma_insert_at(b, c, ch);
    vstd::utf8::valid_utf8_split(b, c);
    vstd::utf8::is_char_boundary_start_end_of_seq(b);
    assert(b.take(c) =~= b.subrange(0, c));
    assert(b.skip(c) =~= b.subrange(c, b.len() as int));
    vstd::utf8::valid_utf8_concat(e, b.skip(c));
    lemma_boundary_at_join(b.take(c), e + b.skip(c));
    assert(b1 =~= b.take(c) + (e + b.skip(c)));
    assert forall|i: int| c < i <= c1 - 1 implies !is_char_boundary(b1, i) by {
        assert(b1[i] == e[i - c]);
        vstd::utf8::is_char_boundary_iff_not_is_continuation_byte(b1, i);
    }
    lemma_prev_boundary_walk(b1, c, c1 - 1);
    let tail = b1.skip(c);
    assert(tail =~= e + b.skip(c));
    assert(tail[0] == e[0]);
    assert(vstd::utf8::length_of_first_scalar(tail) == w);
    assert(pop_first_scalar(tail) =~= b.skip(c));
    assert(b1.take(c) =~= b.take(c));
    assert(remove_at(b1, c) =~= b);
}

/// Pressing Left and then Right from a boundary inside the text returns the cursor to
/// where it was.
pub proof fn lemma_left_then_right(b: Seq<u8>, c: int)
    requires
        valid_utf8(b),
        is_char_boundary(b, c),
        c > 0,
    ensures
        ({
            let (b1, c1, ch1) = press_key(b, c, Key::Named(NamedKey::ArrowLeft));
            press_key(b1, c1, Key::Named(NamedKey::ArrowRight)) == (b, c, false)
        }),
{
    lemma_prev_boundary(b, c - 1);
    let p = prev_boundary(b, c - 1);
    lemma_prev_boundary_gap(b, c - 1);
    vstd::utf8::is_char_boundary_start_end_of_seq(b);
    assert(c <= b.len()) by {
        reveal_with_fuel(is_char_boundary, 1);
        lemma_boundary_le_len(b, c);
    }
    lemma_next_boundary_walk(b, c, p + 1);
}

/// No boundary lies strictly between a position and the boundary found walking back.
proof fn lemma_prev_boundary_gap(b: Seq<u8>, j: int)
    ensures
        forall|i: int| prev_boundary(b, j) < i <= j ==> !is_char_boundary(b, i),
    decreases j,
{
    if j > 0 && !is_char_boundary(b, j) {
        lemma_prev_boundary_gap(b, j - 1);
    }
}

/// A boundary never lies beyond the end of the text.
proof fn lemma_boundary_le_len(b: Seq<u8>, i: int)
    requires
        valid_utf8(b),
        is_char_boundary(b, i),
    ensures
        0 <= i <= b.len(),
    decreases b.len(),
{
    if i != 0 && b.len() > 0 {
        lemma_boundary_le_len(pop_first_scalar(b), i - vstd::utf8::length_of_first_scalar(b));
    }
}

/// Types `chars` at the cursor, one after another: each is inserted at the
/// cursor, which then moves past it. A cursor beyond the end types nothing.
fn type_all(value: &mut String, cursor_pos: &mut usize, chars: &Vec<char>) -> (changed: bool)
    requires
        chars@.len() > 0 && *old(cursor_pos) <= text_bytes(old(value)@).len() ==> is_char_boundary(
            text_bytes(old(value)@),
            *old(cursor_pos) as int,
        ),
        text_bytes(old(value)@).len() + utf8_len(chars@, chars@.len() as int) <= isize::MAX,
    ensures
        (text_bytes(final(value)@), *final(cursor_pos) as int) == type_chars(
            text_bytes(old(value)@),
            *old(cursor_pos) as int,
            chars@,
            chars@.len() as int,
        ),
        changed == (chars@.len() > 0 && *old(cursor_pos) <= text_bytes(old(value)@).len()),
        is_char_boundary(text_bytes(old(value)@), *old(cursor_pos) as int) ==> is_char_boundary(
            text_bytes(final(value)@),
            *final(cursor_pos) as int,
        ),
        text_bytes(final(value)@).len() <= isize::MAX,
{
    let ghost b0 = text_bytes(value@);
    let ghost c0 = *cursor_pos as int;
    let ghost start_on_boundary = is_char_boundary(b0, c0);
    let mut changed = false;
    let mut i: usize = 0;
    while i < chars.len()
        invariant
            i <= chars@.len(),
            (text_bytes(value@), *cursor_pos as int) == type_chars(b0, c0, chars@, i as int),
            c0 <= b0.len() && chars@.len() > 0 ==> is_char_boundary(text_bytes(value@), *cursor_pos as int),
            c0 > b0.len() ==> text_bytes(value@) == b0 && *cursor_pos == c0,
            start_on_boundary == is_char_boundary(b0, c0),
            start_on_boundary ==> is_char_boundary(text_bytes(value@), *cursor_pos as int),
            text_bytes(value@).len() <= b0.len() + utf8_len(chars@, i as int),
            b0.len() + utf8_len(chars@, chars@.len() as int) <= isize::MAX,
            changed == (i > 0 && c0 <= b0.len()),
        decreases chars@.len() - i,
    {
        let ch = chars[i];
        let ghost b = text_bytes(value@);
        let ghost c = *cursor_pos as int;
        proof {
            lemma_utf8_len_mono(chars@, i + 1, chars@.len() as int);
            vstd::utf8::is_char_boundary_start_end_of_seq(b);
        }
        if *cursor_pos <= value.as_str().len() {
            proof {
                lemma_insert_at(b, c, ch);
            }
            string_insert(value, *cursor_pos, ch);
            *cursor_pos = *cursor_pos + utf8_width(ch);
            changed = true;
            assert(b.take(c) + encode_scalar(ch as u32) + b.skip(c) =~= text_bytes(value@));
        }
        i = i + 1;
    }
    proof {
        lemma_utf8_len_mono(chars@, chars@.len() as int, chars@.len() as int);
    }
    changed
}

/// Applies one key press to the text and the cursor; returns whether the text changed.
fn apply_key(value: &mut String, cursor_pos: &mut usize, key: &Key) -> (changed: bool)
    requires
        key_allowed(text_bytes(old(value)@), *old(cursor_pos) as int, *key),
        text_bytes(old(value)@).len() <= isize::MAX,
    ensures
        (text_bytes(final(value)@), *final(cursor_pos) as int, changed) == press_key(
            text_bytes(old(value)@),
            *old(cursor_pos) as int,
            *key,
        ),
        is_char_boundary(text_bytes(old(value)@), *old(cursor_pos) as int) ==> is_char_boundary(
            text_bytes(final(value)@),
            *final(cursor_pos) as int,
        ),
        text_bytes(final(value)@).len() <= isize::MAX,
{
    let ghost b = text_bytes(value@);
    let ghost c = *cursor_pos as int;
    let mut changed = false;
    proof {
        vstd::utf8::is_char_boundary_start_end_of_seq(b);
        if value@.len() > 0 {
            assert(b =~= encode_scalar(value@[0] as u32) + encode_utf8(value@.drop_first()));
        }
    }
    match key {
        Key::Named(NamedKey::Backspace) => {
            if *cursor_pos > 0 && !value.as_str().is_empty() {
                // Find the previous character boundary.
                let mut new_pos = *cursor_pos - 1;
                while new_pos > 0 && !value.as_str().is_char_boundary(new_pos)
                    invariant
                        b == text_bytes(value@),
                        b.len() <= isize::MAX,
                        0 <= new_pos < c,
                        prev_boundary(b, new_pos as int) == prev_boundary(b, c - 1),
                    decreases new_pos,
                {
                    new_pos = new_pos - 1;
                }
                proof {
                    lemma_prev_boundary(b, c - 1);
                    lemma_remove_at(b, new_pos as int);
                }
                string_remove(value, new_pos);
                *cursor_pos = new_pos;
                changed = true;
                assert(prev_boundary(b, new_pos as int) == new_pos);
            }
        },
        Key::Named(NamedKey::Delete) => {
            if *cursor_pos < value.as_str().len() {
                proof {
                    lemma_remove_at(b, c);
                }
                string_remove(value, *cursor_pos);
                changed = true;
            }
        },
        Key::Named(NamedKey::ArrowLeft) => {
            if *cursor_pos > 0 {
                *cursor_pos = *cursor_pos - 1;
                while *cursor_pos > 0 && !value.as_str().is_char_boundary(*cursor_pos)
                    invariant
                        b == text_bytes(value@),
                        b.len() <= isize::MAX,
                        0 <= *cursor_pos < c,
                        prev_boundary(b, *cursor_pos as int) == prev_boundary(b, c - 1),
                    decreases *cursor_pos,
                {
                    *cursor_pos = *cursor_pos - 1;
                }
                proof {
                    lemma_prev_boundary(b, c - 1);
                }
            }
        },
        Key::Named(NamedKey::ArrowRight) => {
            if *cursor_pos < value.as_str().len() {
                *cursor_pos = *cursor_pos + 1;
                while *cursor_pos < value.as_str().len() && !value.as_str().is_char_boundary(
                    *cursor_pos,
                )
                    invariant
                        b == text_bytes(value@),
                        b.len() <= isize::MAX,
                        c < *cursor_pos <= b.len(),
                        next_boundary(b, *cursor_pos as int) == next_boundary(b, c + 1),
                    decreases b.len() - *cursor_pos,
                {
                    *cursor_pos = *cursor_pos + 1;
                }
                proof {
                    lemma_next_boundary(b, c + 1);
                }
            }
        },
        Key::Named(NamedKey::Home) => {
            *cursor_pos = 0;
        },
        Key::Named(NamedKey::End) => {
            *cursor_pos = value.as_str().len();
        },
        _ => {
        },
    }
    changed
}

/// Whether a key press is allowed with the cursor at byte `cursor` of `value`
/// (see [`key_allowed`]).
fn key_allowed_exec(value: &String, cursor: usize, key: &Key) -> (r: bool)
    requires
        text_bytes(value@).len() <= isize::MAX,
    ensures
        r == key_allowed(text_bytes(value@), cursor as int, *key),
{
    match key {
        Key::Named(NamedKey::Backspace) => !(cursor > 0 && value.as_str().len() > 0) || cursor
            <= value.as_str().len(),
        Key::Named(NamedKey::Delete) => !(cursor < value.as_str().len())
            || value.as_str().is_char_boundary(cursor),
        _ => true,
    }
}

/// Whether [`text_input_update`] can apply the frame `input_state` to `value` with
/// the cursor at byte `cursor_pos`: typing needs the cursor on a character boundary
/// (or beyond the end), Backspace a cursor within the text and Delete a cursor on a
/// boundary, each in the state the earlier input of the frame leaves.
pub fn text_input_update_allowed(value: &String, cursor_pos: usize, input_state: &InputState) -> (r: bool)
    requires
        text_bytes(value@).len() + utf8_len(
            input_state.characters_typed@,
            input_state.characters_typed@.len() as int,
        ) <= isize::MAX,
    ensures
        r == edit_allowed(text_bytes(value@), cursor_pos as int, *input_state),
{
    let chars = &input_state.characters_typed;
    proof {
        lemma_utf8_len_mono(chars@, 0, chars@.len() as int);
    }
    if chars.len() > 0 && cursor_pos <= value.as_str().len() && !value.as_str().is_char_boundary(cursor_pos) {
        return false;
    }
    let mut v = value.clone();
    let mut c = cursor_pos;
    type_all(&mut v, &mut c, chars);
    let ghost b1 = text_bytes(v@);
    let ghost c1 = c as int;
    assert((b1, c1) == type_chars(text_bytes(value@), cursor_pos as int, chars@, chars@.len() as int));
    let keys = &input_state.keys_just_pressed;
    let mut k: usize = 0;
    while k < keys.len()
        invariant
            k <= keys@.len(),
            keys@ == input_state.keys_just_pressed@,
            (b1, c1) == type_chars(
                text_bytes(value@),
                cursor_pos as int,
                input_state.characters_typed@,
                input_state.characters_typed@.len() as int,
            ),
            keys_allowed(b1, c1, keys@, k as int),
            ({
                let (b, cc, ch) = press_keys(b1, c1, keys@, k as int);
                &&& text_bytes(v@) == b
                &&& c == cc
            }),
            text_bytes(v@).len() <= isize::MAX,
        decreases keys@.len() - k,
    {
        if !key_allowed_exec(&v, c, &keys[k]) {
            proof {
                lemma_keys_allowed_stops(b1, c1, keys@, k as int + 1, keys@.len() as int);
            }
            return false;
        }
        apply_key(&mut v, &mut c, &keys[k]);
        k = k + 1;
    }
    true
}

/// Once a key is not allowed, no longer prefix of the keys is.
proof fn lemma_keys_allowed_stops(b: Seq<u8>, c: int, keys: Seq<Key>, k: int, n: int)
    requires
        0 < k <= n,
        !keys_allowed(b, c, keys, k),
    ensures
        !keys_allowed(b, c, keys, n),
    decreases n - k,
{
    if k < n {
        lemma_keys_allowed_stops(b, c, keys, k, n - 1);
    }
}

proof fn lemma_press_key_boundary(b: Seq<u8>, c: int, key: Key)
    requires
        valid_utf8(b),
        is_char_boundary(b, c),
    ensures
        key_allowed(b, c, key),
        valid_utf8(press_key(b, c, key).0),
        is_char_boundary(press_key(b, c, key).0, press_key(b, c, key).1),
{
    vstd::utf8::is_char_boundary_start_end_of_seq(b);
    lemma_boundary_le_len(b, c);
    match key {
        Key::Named(NamedKey::Backspace) => {
            if c > 0 && b.len() > 0 {
                lemma_prev_boundary(b, c - 1);
                lemma_remove_at(b, prev_boundary(b, c - 1));
            }
        },
        Key::Named(NamedKey::Delete) => {
            if c < b.len() {
                lemma_remove_at(b, c);
            }
        },
        Key::Named(NamedKey::ArrowLeft) => {
            if c > 0 {
                lemma_prev_boundary(b, c - 1);
            }
        },
        Key::Named(NamedKey::ArrowRight) => {
            if c < b.len() {
                lemma_next_boundary(b, c + 1);
            }
        },
        _ => {},
    }
}

proof fn lemma_type_chars_boundary(b: Seq<u8>, c: int, chars: Seq<char>, n: int)
    requires
        valid_utf8(b),
        is_char_boundary(b, c),
    ensures
        valid_utf8(type_chars(b, c, chars, n).0),
        is_char_boundary(type_chars(b, c, chars, n).0, type_chars(b, c, chars, n).1),
    decreases n,
{
    if n > 0 {
        lemma_type_chars_boundary(b, c, chars, n - 1);
        let (b1, c1) = type_chars(b, c, chars, n - 1);
        lemma_boundary_le_len(b1, c1);
        lemma_insert_at(b1, c1, chars[n - 1]);
    }
}

proof fn lemma_press_keys_boundary(b: Seq<u8>, c: int, keys: Seq<Key>, n: int)
    requires
        valid_utf8(b),
        is_char_boundary(b, c),
    ensures
        keys_allowed(b, c, keys, n),
        valid_utf8(press_keys(b, c, keys, n).0),
        is_char_boundary(press_keys(b, c, keys, n).0, press_keys(b, c, keys, n).1),
    decreases n,
{
    if n > 0 {
        lemma_press_keys_boundary(b, c, keys, n - 1);
        let (b1, c1, ch1) = press_keys(b, c, keys, n - 1);
        lemma_press_key_boundary(b1, c1, keys[n - 1]);
    }
}

/// With the cursor on a character boundary of the text, every frame can be
/// applied (so `text_input_update` never panics there), and the cursor ends on a
/// boundary within the text.
pub proof fn lemma_boundary_cursor_always_allowed(text: Seq<char>, c: int, input: InputState)
    requires
        is_char_boundary(text_bytes(text), c),
    ensures
        edit_allowed(text_bytes(text), c, input),
        is_char_boundary(edit(text_bytes(text), c, input).0, edit(text_bytes(text), c, input).1),
        0 <= edit(text_bytes(text), c, input).1 <= edit(text_bytes(text), c, input).0.len(),
{
    let b = text_bytes(text);
    vstd::utf8::encode_utf8_valid_utf8(text);
    let chars = input.characters_typed@;
    let keys = input.keys_just_pressed@;
    lemma_type_chars_boundary(b, c, chars, chars.len() as int);
    let (b1, c1) = type_chars(b, c, chars, chars.len() as int);
    lemma_press_keys_boundary(b1, c1, keys, keys.len() as int);
    let (b2, c2, ch) = press_keys(b1, c1, keys, keys.len() as int);
    lemma_boundary_le_len(b2, c2);
}

proof fn lemma_press_keys_unchanged(b: Seq<u8>, c: int, keys: Seq<Key>, n: int)
    ensures
        !press_keys(b, c, keys, n).2 ==> press_keys(b, c, keys, n).0 == b,
    decreases n,
{
    if n > 0 {
        lemma_press_keys_unchanged(b, c, keys, n - 1);
    }
}

/// A frame that reports no change leaves the text exactly as it was.
pub proof fn lemma_unchanged_means_same_text(b: Seq<u8>, c: int, input: InputState)
    ensures
        !edit(b, c, input).2 ==> edit(b, c, input).0 == b,
{
    let chars = input.characters_typed@;
    if chars.len() == 0 {
        assert(type_chars(b, c, chars, 0) == (b, c));
    } else if c > b.len() {
        lemma_type_chars_beyond(b, c, chars, chars.len() as int);
    }
    let (b1, c1) = type_chars(b, c, chars, chars.len() as int);
    lemma_press_keys_unchanged(b1, c1, input.keys_just_pressed@, input.keys_just_pressed@.len() as int);
}

/// The arrows, Home and End only move the cursor: the text stays as it is and no
/// change is reported; Home puts the cursor at the start and End at the end.
/// So a frame whose last key is Home (End) leaves the cursor at the start (end).
pub proof fn lemma_navigation_keys(b: Seq<u8>, c: int, key: Key, keys: Seq<Key>, n: int)
    requires
        key == Key::Named(NamedKey::ArrowLeft) || key == Key::Named(NamedKey::ArrowRight) || key
            == Key::Named(NamedKey::Home) || key == Key::Named(NamedKey::End),
    ensures
        press_key(b, c, key).0 == b,
        !press_key(b, c, key).2,
        key == Key::Named(NamedKey::Home) ==> press_key(b, c, key).1 == 0,
        key == Key::Named(NamedKey::End) ==> press_key(b, c, key).1 == b.len(),
        n > 0 && keys[n - 1] == Key::Named(NamedKey::Home) ==> press_keys(b, c, keys, n).1 == 0,
        n > 0 && keys[n - 1] == Key::Named(NamedKey::End) ==> press_keys(b, c, keys, n).1
            == press_keys(b, c, keys, n).0.len(),
{
}

/// Only Backspace and Delete edit: every other key leaves the text unchanged and
/// reports no change, and every key other than those two, the arrows, Home and
/// End also leaves the cursor where it was.
pub proof fn lemma_only_deletions_edit(b: Seq<u8>, c: int, key: Key)
    ensures
        key != Key::Named(NamedKey::Backspace) && key != Key::Named(NamedKey::Delete) ==> press_key(b, c, key).0
            == b && !press_key(b, c, key).2,
        key != Key::Named(NamedKey::Backspace) && key != Key::Named(NamedKey::Delete) && key != Key::Named(
            NamedKey::ArrowLeft,
        ) && key != Key::Named(NamedKey::ArrowRight) && key != Key::Named(NamedKey::Home) && key != Key::Named(
            NamedKey::End,
        ) ==> press_key(b, c, key).1 == c,
{
}

/// Delete removes exactly the one character at the cursor and keeps the cursor:
/// typing that character back at the cursor restores the text.
pub proof fn lemma_delete_then_retype(b: Seq<u8>, c: int)
    requires
        valid_utf8(b),
        is_char_boundary(b, c),
        c < b.len(),
    ensures
        ({
            let ch = decode_first_scalar(b.skip(c)) as char;
            let (b1, c1, changed) = press_key(b, c, Key::Named(NamedKey::Delete));
            &&& changed
            &&& c1 == c
            &&& b1.len() < b.len()
            &&& type_char(b1, c1, ch).0 == b
        }),
{
    lemma_remove_at(b, c);
    lemma_boundary_le_len(b, c);
    vstd::utf8::valid_utf8_split(b, c);
    let tail = b.skip(c);
    assert(tail =~= b.subrange(c, b.len() as int));
    assert(valid_utf8(tail));
    vstd::utf8::decode_utf8_first_scalar(tail);
    let ch = decode_first_scalar(tail) as char;
    let (b1, c1, changed) = press_key(b, c, Key::Named(NamedKey::Delete));
    assert(b1 == b.take(c) + pop_first_scalar(tail));
    assert(b1.take(c) =~= b.take(c));
    assert(b1.skip(c) =~= pop_first_scalar(tail));
    assert(vstd::utf8::take_first_scalar(tail) + pop_first_scalar(tail) =~= tail);
    assert(b.take(c) + tail =~= b);
    assert(type_char(b1, c1, ch).0 =~= b);
}

/// The character starting at boundary `p` ends at the next boundary: the bytes
/// inside it are no boundaries and the byte after it is one.
proof fn lemma_char_extent(b: Seq<u8>, p: int)
    requires
        valid_utf8(b),
        is_char_boundary(b, p),
        p < b.len(),
    ensures
        ({
            let w = vstd::utf8::length_of_first_scalar(b.skip(p));
            &&& 1 <= w
            &&& p + w <= b.len()
            &&& is_char_boundary(b, p + w)
            &&& forall|i: int| p < i < p + w ==> !is_char_boundary(b, i)
        }),
{
    lemma_boundary_le_len(b, p);
    vstd::utf8::valid_utf8_split(b, p);
    let tail = b.skip(p);
    assert(tail =~= b.subrange(p, b.len() as int));
    vstd::utf8::decode_utf8_first_scalar(tail);
    let ch = decode_first_scalar(tail) as char;
    let e = encode_scalar(ch as u32);
    lemma_encoding_shape(ch);
    let w = vstd::utf8::length_of_first_scalar(tail);
    assert(e =~= vstd::utf8::take_first_scalar(tail));
    assert(e.len() == w);
    let rest = pop_first_scalar(tail);
    assert(valid_utf8(rest));
    assert(b.take(p) =~= b.subrange(0, p));
    vstd::utf8::valid_utf8_concat(b.take(p), e);
    lemma_boundary_at_join(b.take(p) + e, rest);
    assert(b.take(p) + e + rest =~= b);
    assert forall|i: int| p < i < p + w implies !is_char_boundary(b, i) by {
        assert(b[i] == e[i - p]);
        vstd::utf8::is_char_boundary_iff_not_is_continuation_byte(b, i);
    }
}

/// Backspace removes exactly the one character before the cursor and moves the
/// cursor to its start: typing that character back restores both the text and
/// the cursor.
pub proof fn lemma_backspace_then_retype(b: Seq<u8>, c: int)
    requires
        valid_utf8(b),
        is_char_boundary(b, c),
        c > 0,
    ensures
        ({
            let (b1, c1, changed) = press_key(b, c, Key::Named(NamedKey::Backspace));
            let ch = decode_first_scalar(b.skip(c1)) as char;
            &&& changed
            &&& c1 < c
            &&& b1.len() < b.len()
            &&& type_char(b1, c1, ch) == (b, c)
        }),
{
    lemma_boundary_le_len(b, c);
    lemma_prev_boundary(b, c - 1);
    lemma_prev_boundary_gap(b, c - 1);
    let p = prev_boundary(b, c - 1);
    lemma_char_extent(b, p);
    let w = vstd::utf8::length_of_first_scalar(b.skip(p));
    if p + w < c {
        assert(!is_char_boundary(b, p + w));
    }
    if p + w > c {
        assert(!is_char_boundary(b, c));
    }
    assert(p + w == c);
    lemma_delete_then_retype(b, p);
    let tail = b.skip(p);
    assert(tail =~= b.subrange(p, b.len() as int));
    vstd::utf8::valid_utf8_split(b, p);
    vstd::utf8::decode_utf8_first_scalar(tail);
    let ch = decode_first_scalar(tail) as char;
    assert(encode_scalar(ch as u32) =~= vstd::utf8::take_first_scalar(tail));
}

/// The arrows move the cursor by exactly one character: Left to the start of the
/// character before it, Right past the character at it; at either end of the text
/// they stay put.
pub proof fn lemma_arrows_step_one_char(b: Seq<u8>, c: int)
    requires
        valid_utf8(b),
        is_char_boundary(b, c),
    ensures
        c > 0 ==> ({
            let l = press_key(b, c, Key::Named(NamedKey::ArrowLeft)).1;
            l < c && is_char_boundary(b, l) && l + vstd::utf8::length_of_first_scalar(b.skip(l)) == c
        }),
        c < b.len() ==> press_key(b, c, Key::Named(NamedKey::ArrowRight)).1 == c
            + vstd::utf8::length_of_first_scalar(b.skip(c)),
        c == 0 ==> press_key(b, c, Key::Named(NamedKey::ArrowLeft)).1 == c,
        c == b.len() ==> press_key(b, c, Key::Named(NamedKey::ArrowRight)).1 == c,
{
    lemma_boundary_le_len(b, c);
    if c > 0 {
        lemma_prev_boundary(b, c - 1);
        lemma_prev_boundary_gap(b, c - 1);
        let p = prev_boundary(b, c - 1);
        lemma_char_extent(b, p);
        let w = vstd::utf8::length_of_first_scalar(b.skip(p));
        if p + w < c {
            assert(!is_char_boundary(b, p + w));
        }
        if p + w > c {
            assert(!is_char_boundary(b, c));
        }
    }
    if c < b.len() {
        lemma_char_extent(b, c);
        let w = vstd::utf8::length_of_first_scalar(b.skip(c));
        lemma_next_boundary_walk(b, c + w, c + 1);
    }
}

proof fn lemma_encode_push(s: Seq<char>, ch: char)
    ensures
        encode_utf8(s.push(ch)) == encode_utf8(s) + encode_scalar(ch as u32),
    decreases s.len(),
{
    if s.len() == 0 {
        assert(s.push(ch).drop_first() =~= Seq::<char>::empty());
        assert(encode_utf8(s.push(ch)) =~= encode_scalar(ch as u32) + encode_utf8(Seq::<char>::empty()));
        assert(encode_utf8(s) =~= Seq::<u8>::empty());
        assert(encode_utf8(s.push(ch)) =~= encode_utf8(s) + encode_scalar(ch as u32));
    } else {
        lemma_encode_push(s.drop_first(), ch);
        assert(s.push(ch).drop_first() =~= s.drop_first().push(ch));
        assert(encode_utf8(s.push(ch)) =~= encode_scalar(s[0] as u32) + encode_utf8(s.drop_first().push(ch)));
        assert(encode_utf8(s.push(ch)) =~= encode_utf8(s) + encode_scalar(ch as u32));
    }
}

/// Typing inserts the typed characters, in order, at the cursor and leaves the
/// cursor right after them: the text becomes the bytes before the cursor, the
/// encoding of the typed characters, and the bytes after the cursor.
pub proof fn lemma_typing_inserts_text(b: Seq<u8>, c: int, chars: Seq<char>, n: int)
    requires
        0 <= c <= b.len(),
        0 <= n <= chars.len(),
    ensures
        type_chars(b, c, chars, n) == (
            b.take(c) + encode_utf8(chars.take(n)) + b.skip(c),
            c + encode_utf8(chars.take(n)).len(),
        ),
    decreases n,
{
    if n == 0 {
        assert(chars.take(0) =~= Seq::<char>::empty());
        assert(b.take(c) + encode_utf8(chars.take(0)) + b.skip(c) =~= b);
    } else {
        lemma_typing_inserts_text(b, c, chars, n - 1);
        lemma_encode_push(chars.take(n - 1), chars[n - 1]);
        assert(chars.take(n - 1).push(chars[n - 1]) =~= chars.take(n));
        let e = encode_utf8(chars.take(n - 1));
        let (b1, c1) = type_chars(b, c, chars, n - 1);
        assert(b1.take(c1) =~= b.take(c) + e);
        assert(b1.skip(c1) =~= b.skip(c));
        assert(type_chars(b, c, chars, n).0 =~= b.take(c) + encode_utf8(chars.take(n)) + b.skip(c));
    }
}

/// At the ends of the text the deletions do nothing: Backspace at the start (or
/// in an empty text) and Delete at or past the end leave text and cursor alone
/// and report no change.
pub proof fn lemma_deletions_at_ends(b: Seq<u8>, c: int)
    ensures
        c <= 0 || b.len() == 0 ==> press_key(b, c, Key::Named(NamedKey::Backspace)) == (b, c, false),
        c >= b.len() ==> press_key(b, c, Key::Named(NamedKey::Delete)) == (b, c, false),
{
}

/// Handle text input keyboard events and update the value.
///
/// Call this each frame with the keyboard input of the frame. When the input is focused,
/// typed characters are inserted at the cursor (a byte offset), then Backspace and Delete
/// remove the character before or at the cursor, the arrows move it by one character,
/// and Home and End move it to the start or end. A cursor on a character boundary stays
/// on one. Returns `true` if the value was changed. The frames it accepts are those of
/// [`text_input_update_allowed`].
pub fn text_input_update(
    _input_id: &str,
    value: &mut String,
    cursor_pos: &mut usize,
    _events: &[TargetedEvent],
    input_state: &InputState,
    focused: bool,
) -> (r: bool)
    requires
        focused ==> edit_allowed(text_bytes(old(value)@), *old(cursor_pos) as int, *input_state),
        focused ==> text_bytes(old(value)@).len() + utf8_len(
            input_state.characters_typed@,
            input_state.characters_typed@.len() as int,
        ) <= isize::MAX,
    ensures
        !focused ==> !r && final(value)@ == old(value)@ && *final(cursor_pos) == *old(cursor_pos),
        focused ==> ({
            let (b, c, changed) = edit(
                text_bytes(old(value)@),
                *old(cursor_pos) as int,
                *input_state,
            );
            &&& text_bytes(final(value)@) == b
            &&& *final(cursor_pos) == c
            &&& r == changed
        }),
        is_char_boundary(text_bytes(old(value)@), *old(cursor_pos) as int) ==> is_char_boundary(
            text_bytes(final(value)@),
            *final(cursor_pos) as int,
        ),
        !r ==> final(value)@ == old(value)@,
{
    // Only process keyboard input if focused
    if !focused {
        return false;
    }
    let ghost start_on_boundary = is_char_boundary(text_bytes(value@), *cursor_pos as int);
    let typed = type_all(value, cursor_pos, &input_state.characters_typed);
    let mut changed = typed;

    // Process special keys.
    let ghost b1 = text_bytes(value@);
    let ghost c1 = *cursor_pos as int;
    let keys = &input_state.keys_just_pressed;
    let mut k: usize = 0;
    while k < keys.len()
        invariant
            k <= keys@.len(),
            keys@ == input_state.keys_just_pressed@,
            ({
                let (b, c, ch) = press_keys(b1, c1, keys@, k as int);
                &&& text_bytes(value@) == b
                &&& *cursor_pos == c
                &&& changed == (typed || ch)
            }),
            keys_allowed(b1, c1, keys@, keys@.len() as int),
            start_on_boundary ==> is_char_boundary(text_bytes(value@), *cursor_pos as int),
            text_bytes(value@).len() <= isize::MAX,
        decreases keys@.len() - k,
    {
        proof {
            lemma_keys_allowed_prefix(b1, c1, keys@, k as int, keys@.len() as int);
        }
        let key_changed = apply_key(value, cursor_pos, &keys[k]);
        changed = changed || key_changed;
        k = k + 1;
    }
    proof {
        lemma_unchanged_means_same_text(text_bytes(old(value)@), *old(cursor_pos) as int, *input_state);
        if !changed {
            vstd::utf8::encode_utf8_decode_utf8(value@);
            vstd::utf8::encode_utf8_decode_utf8(old(value)@);
        }
    }
    changed
}

/// Check if a text input with the given ID was clicked this frame.
pub fn text_input_clicked(input_id: &str, events: &[TargetedEvent]) -> (r: bool)
    ensures
        r == exists|i: int|
            0 <= i < events@.len() && #[trigger] events@[i].event == InteractionEvent::Click
                && events@[i].target@ == input_id@,
{
    routed(events, InteractionEvent::Click, InteractionEvent::Click, input_id, input_id)
}

/// Check if a text input with the given ID received focus this frame.
pub fn text_input_focused(input_id: &str, events: &[TargetedEvent]) -> (r: bool)
    ensures
        r == exists|i: int|
            0 <= i < events@.len() && #[trigger] events@[i].event == InteractionEvent::Focus
                && events@[i].target@ == input_id@,
{
    routed(events, InteractionEvent::Focus, InteractionEvent::Focus, input_id, input_id)
}

/// Check if a text input with the given ID lost focus this frame.
pub fn text_input_blurred(input_id: &str, events: &[TargetedEvent]) -> (r: bool)
    ensures
        r == exists|i: int|
            0 <= i < events@.len() && #[trigger] events@[i].event == InteractionEvent::Blur
                && events@[i].target@ == input_id@,
{
    routed(events, InteractionEvent::Blur, InteractionEvent::Blur, input_id, input_id)
}

} // verus!
