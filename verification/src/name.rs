//! Name codec: entry names are stored on disk in a fixed 24-byte field,
//! null-terminated and null-padded.  Decoding maps each stored byte to the
//! character with the same code point (Latin-1, not UTF-8); encoding keeps
//! only characters whose code point fits in one byte, truncates to 23
//! content bytes and pads with nulls.

use vstd::prelude::*;

verus! {

/// Index of the first null byte of `s`, or `s.len()` if there is none.
pub open spec fn first_null(s: Seq<u8>) -> int
    decreases s.len(),
{
    if s.len() == 0 {
        0
    } else if s[0] == 0 {
        0
    } else {
        1 + first_null(s.drop_first())
    }
}

/// `first_null` really is the index of the first null byte.
pub proof fn lemma_first_null(s: Seq<u8>)
    ensures
        0 <= first_null(s) <= s.len(),
        forall|i: int| 0 <= i < first_null(s) ==> s[i] != 0,
        first_null(s) < s.len() ==> s[first_null(s)] == 0,
    decreases s.len(),
{
    if s.len() != 0 && s[0] != 0 {
        lemma_first_null(s.drop_first());
        assert forall|i: int| 0 <= i < first_null(s) implies s[i] != 0 by {
            if i > 0 {
                assert(s.drop_first()[i - 1] != 0);
            }
        }
    }
}

/// The name encoded by a stored name field: the bytes before the first
/// null, up to 24 of them, each read as the character with that code point.
pub open spec fn decoded_name(field: Seq<u8>) -> Seq<char> {
    let n = if first_null(field) <= 24 {
        first_null(field)
    } else {
        24
    };
    Seq::new(n as nat, |i: int| field[i] as char)
}

/// The bytes of the characters of `s` whose code point fits in one byte;
/// other characters are dropped.
pub open spec fn latin1_bytes(s: Seq<char>) -> Seq<u8>
    decreases s.len(),
{
    if s.len() == 0 {
        Seq::empty()
    } else {
        latin1_bytes(s.drop_last()) + if s.last() as int <= 255 {
            seq![s.last() as u8]
        } else {
            Seq::<u8>::empty()
        }
    }
}

/// A sequence of `n` null bytes.
pub open spec fn null_bytes(n: nat) -> Seq<u8> {
    Seq::new(n, |i: int| 0u8)
}

/// The first 23 bytes of a name's one-byte characters: the content part of
/// the on-disk field.
pub open spec fn chop23(b: Seq<u8>) -> Seq<u8> {
    if b.len() <= 23 {
        b
    } else {
        b.take(23)
    }
}

/// The 24-byte on-disk name field for the name `s`: its one-byte characters,
/// truncated to 23 bytes, padded with nulls to 24 bytes.
pub open spec fn name_encode(s: Seq<char>) -> Seq<u8> {
    let content = chop23(latin1_bytes(s));
    content + null_bytes((24 - content.len()) as nat)
}

/// The name that a round trip through the on-disk field preserves:
/// encoding `s` and decoding the field yields `stored_name(s)`.
pub open spec fn stored_name(s: Seq<char>) -> Seq<char> {
    decoded_name(name_encode(s))
}

/// A name the on-disk field can hold exactly: at most 23 characters, each
/// with a code point between 1 and 255.
pub open spec fn wf_name(s: Seq<char>) -> bool {
    s.len() <= 23 && forall|i: int| 0 <= i < s.len() ==> 1 <= #[trigger] s[i] as int <= 255
}

/// An encoded name field is always exactly 24 bytes.
pub proof fn lemma_name_encode_len(s: Seq<char>)
    ensures
        name_encode(s).len() == 24,
{
}

/// Encoding then decoding gives the name back unchanged for any name the
/// field can hold exactly.
pub proof fn lemma_name_round_trip(s: Seq<char>)
    requires
        wf_name(s),
    ensures
        stored_name(s) == s,
{
    lemma_latin1_bytes_exact(s);
    let b = latin1_bytes(s);
    let field = name_encode(s);
    assert(field =~= b + null_bytes((24 - s.len()) as nat));
    lemma_first_null(field);
    if first_null(field) < s.len() {
        assert(field[first_null(field)] != 0);
    }
    if first_null(field) > s.len() {
        assert(field[s.len() as int] == 0);
    }
    assert(first_null(field) == s.len());
    assert(stored_name(s) =~= s);
}

/// Encoding a name longer than the field's 23 content bytes and decoding
/// it back keeps exactly the first 23 characters.
pub proof fn lemma_name_truncation(s: Seq<char>)
    requires
        forall|i: int| 0 <= i < s.len() ==> 1 <= #[trigger] s[i] as int <= 255,
        s.len() > 23,
    ensures
        stored_name(s) == s.take(23),
{
    lemma_latin1_bytes_exact(s);
    let b = latin1_bytes(s);
    let field = name_encode(s);
    assert(field =~= b.take(23) + null_bytes(1));
    lemma_first_null(field);
    if first_null(field) < 23 {
        assert(field[first_null(field)] != 0);
    }
    assert(field[23] == 0);
    assert(first_null(field) == 23);
    assert(stored_name(s) =~= s.take(23));
}

/// For a well-formed name every character is kept, with its own code point.
proof fn lemma_latin1_bytes_exact(s: Seq<char>)
    requires
        forall|i: int| 0 <= i < s.len() ==> 1 <= #[trigger] s[i] as int <= 255,
    ensures
        latin1_bytes(s).len() == s.len(),
        forall|i: int| 0 <= i < s.len() ==> latin1_bytes(s)[i] == s[i] as u8,
        forall|i: int| 0 <= i < s.len() ==> latin1_bytes(s)[i] != 0,
        forall|i: int| 0 <= i < s.len() ==> latin1_bytes(s)[i] as char == s[i],
    decreases s.len(),
{
    if s.len() != 0 {
        lemma_latin1_bytes_exact(s.drop_last());
        assert(s.last() as int >= 1);
        assert forall|i: int| 0 <= i < s.len() implies latin1_bytes(s)[i] == s[i] as u8 by {
            if i < s.len() - 1 {
                assert(latin1_bytes(s.drop_last())[i] == s.drop_last()[i] as u8);
            }
        }
    }
}

/// Relies on `String::push`: appends the given character to the string.
#[verifier::external_body]
fn push_char(s: &mut String, c: char)
    ensures
        final(s)@ == old(s)@ + seq![c],
{
    s.push(c);
}

/// Decodes a stored name field: the bytes before the first null (at most
/// 24), each read as the character with the same code point.  A field
/// shorter than 24 bytes is read as if padded with nulls.
pub fn read_null_terminated(field: &Vec<u8>) -> (name: String)
    ensures
        name@ == decoded_name(field@),
{
    let mut name = String::new();
    let mut i: usize = 0;
    proof {
        lemma_first_null(field@);
    }
    while i < 24 && i < field.len() && field[i] != 0
        invariant
            0 <= i <= 24,
            i <= field@.len(),
            forall|j: int| 0 <= j < i ==> field@[j] != 0,
            name@ == Seq::new(i as nat, |j: int| field@[j] as char),
        decreases 24 - i,
    {
        push_char(&mut name, field[i] as char);
        i = i + 1;
        assert(name@ =~= Seq::new(i as nat, |j: int| field@[j] as char));
    }
    proof {
        lemma_first_null(field@);
        if i < 24 && i < field@.len() {
            assert(field@[i as int] == 0);
        }
        assert(name@ =~= decoded_name(field@));
    }
    name
}

/// Encodes a name into its 24-byte on-disk field: characters with a
/// one-byte code point are kept (others dropped), the content is truncated
/// to 23 bytes, and nulls pad the field to 24 bytes.
pub fn to_null_terminated(string: &str) -> (field: Vec<u8>)
    ensures
        field@ == name_encode(string@),
{
    let n = string.unicode_len();
    let mut out: Vec<u8> = Vec::new();
    let mut i: usize = 0;
    while i < n && out.len() < 23
        invariant
            0 <= i <= n,
            n == string@.len(),
            out@.len() <= 23,
            out@ == chop23(latin1_bytes(string@.take(i as int))),
        decreases n - i,
    {
        let c = string.get_char(i);
        proof {
            assert(string@.take(i + 1).drop_last() =~= string@.take(i as int));
        }
        if (c as u32) <= 255 {
            let b: u8 = c as u8;
            out.push(b);
        }
        i = i + 1;
    }
    proof {
        if i < n {
            lemma_latin1_prefix(string@, i as int);
            assert(out@ =~= chop23(latin1_bytes(string@)));
        } else {
            assert(string@.take(i as int) =~= string@);
        }
    }
    let mut k = out.len();
    while k < 24
        invariant
            k == out@.len() <= 24,
            out@ == chop23(latin1_bytes(string@)) + null_bytes((k - chop23(
                latin1_bytes(string@),
            ).len()) as nat),
        decreases 24 - k,
    {
        out.push(0);
        k = k + 1;
        assert(out@ =~= chop23(latin1_bytes(string@)) + null_bytes((k - chop23(
            latin1_bytes(string@),
        ).len()) as nat));
    }
    proof {
        assert(out@ =~= name_encode(string@));
    }
    out
}

/// Dropped characters never shorten the kept prefix: once 23 one-byte
/// characters have been seen, the rest of the name cannot change the
/// truncated content.
proof fn lemma_latin1_prefix(s: Seq<char>, i: int)
    requires
        0 <= i <= s.len(),
        latin1_bytes(s.take(i)).len() >= 23,
    ensures
        chop23(latin1_bytes(s.take(i))) == chop23(latin1_bytes(s)),
    decreases s.len() - i,
{
    if i < s.len() {
        lemma_latin1_grows(s, i);
        lemma_latin1_prefix(s, i + 1);
        assert(chop23(latin1_bytes(s.take(i))) =~= chop23(latin1_bytes(s.take(i + 1))));
    } else {
        assert(s.take(i) =~= s);
    }
}

/// Extending a name by one character appends zero or one bytes.
proof fn lemma_latin1_grows(s: Seq<char>, i: int)
    requires
        0 <= i < s.len(),
    ensures
        latin1_bytes(s.take(i + 1)) == latin1_bytes(s.take(i)) + if s[i] as int <= 255 {
            seq![s[i] as u8]
        } else {
            Seq::<u8>::empty()
        },
{
    assert(s.take(i + 1).drop_last() =~= s.take(i));
}

} // verus!
