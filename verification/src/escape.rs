//! Escaping by a table: each character of the text is either kept or replaced
//! by the table's entry for it.
//!
//! Both escapings of this crate replace ASCII characters only, so the text is
//! searched byte by byte, the stretch in front of a character to replace is
//! written in one piece, and the search goes on behind that character.
use crate::prelude::WriterExt;
use crate::ascii::{is_ascii_char, lemma_ascii_char_among_bytes, skip_ascii, split_before_ascii};
use vstd::prelude::*;
use vstd::string::*;
use vstd::utf8::encode_utf8;

verus! {

/// The text that results from `text` when each character `c` is replaced by
/// `table(c)`.
pub open spec fn replace_each(text: Seq<char>, table: spec_fn(char) -> Seq<char>) -> Seq<char>
    decreases text.len(),
{
    if text.len() == 0 {
        Seq::empty()
    } else {
        table(text[0]) + replace_each(text.drop_first(), table)
    }
}

/// Whether `table` leaves `c` as it is.
pub open spec fn keeps(table: spec_fn(char) -> Seq<char>, c: char) -> bool {
    table(c) == seq![c]
}

/// Whether the executable lookup `found` for the byte `b` says what `table`
/// says of the character that the byte stands for.
pub open spec fn agrees(table: spec_fn(char) -> Seq<char>, b: u8, found: Option<&'static str>) -> bool {
    match found {
        Some(text) => b < 0x80 && text@ == table(b as char),
        None => b < 0x80 ==> keeps(table, b as char),
    }
}

/// Replacing distributes over concatenation.
pub proof fn lemma_replace_each_concat(
    head: Seq<char>,
    tail: Seq<char>,
    table: spec_fn(char) -> Seq<char>,
)
    ensures
        replace_each(head + tail, table) == replace_each(head, table) + replace_each(tail, table),
    decreases head.len(),
{
    if head.len() == 0 {
        assert(head + tail =~= tail);
    } else {
        assert((head + tail).drop_first() =~= head.drop_first() + tail);
        lemma_replace_each_concat(head.drop_first(), tail, table);
    }
}

/// Text whose characters the table keeps is not changed.
pub proof fn lemma_replace_each_kept(text: Seq<char>, table: spec_fn(char) -> Seq<char>)
    requires
        forall|i: int| 0 <= i < text.len() ==> keeps(table, #[trigger] text[i]),
    ensures
        replace_each(text, table) == text,
    decreases text.len(),
{
    if text.len() > 0 {
        let rest = text.drop_first();
        assert forall|i: int| 0 <= i < rest.len() implies keeps(table, #[trigger] rest[i]) by {
            assert(rest[i] == text[i + 1]);
        }
        lemma_replace_each_kept(rest, table);
    }
}

/// Text in whose bytes no ASCII byte is replaced holds no character that is
/// replaced, provided that the table keeps what is not ASCII.
proof fn lemma_kept_bytes_kept_chars(text: Seq<char>, table: spec_fn(char) -> Seq<char>)
    requires
        forall|c: char| !is_ascii_char(c) ==> keeps(table, c),
        forall|j: int|
            0 <= j < encode_utf8(text).len() && (#[trigger] encode_utf8(
                text,
            )[j]) < 0x80 ==> keeps(table, encode_utf8(text)[j] as char),
    ensures
        forall|i: int| 0 <= i < text.len() ==> keeps(table, #[trigger] text[i]),
{
    assert forall|i: int| 0 <= i < text.len() implies keeps(table, #[trigger] text[i]) by {
        if is_ascii_char(text[i]) {
            let j = lemma_ascii_char_among_bytes(text, i);
            assert(encode_utf8(text)[j] < 0x80);
        }
    }
}

/// The first byte of `bytes` for which `lookup` has an entry, with that entry.
fn first_entry<T>(bytes: &[u8], lookup: &T, Ghost(table): Ghost<spec_fn(char) -> Seq<char>>) -> (res:
    Option<(usize, &'static str)>) where T: Fn(u8) -> Option<&'static str>
    requires
        forall|b: u8| call_requires(*lookup, (b,)),
        forall|b: u8, found: Option<&'static str>|
            call_ensures(*lookup, (b,), found) ==> agrees(table, b, found),
    ensures
        match res {
            Some((index, text)) => {
                &&& index < bytes@.len()
                &&& bytes@[index as int] < 0x80
                &&& text@ == table(bytes@[index as int] as char)
                &&& forall|j: int|
                    0 <= j < index && (#[trigger] bytes@[j]) < 0x80 ==> keeps(
                        table,
                        bytes@[j] as char,
                    )
            },
            None => forall|j: int|
                0 <= j < bytes@.len() && (#[trigger] bytes@[j]) < 0x80 ==> keeps(
                    table,
                    bytes@[j] as char,
                ),
        },
{
    let mut index: usize = 0;
    while index < bytes.len()
        invariant
            index <= bytes@.len(),
            forall|b: u8| call_requires(*lookup, (b,)),
            forall|b: u8, found: Option<&'static str>|
                call_ensures(*lookup, (b,), found) ==> agrees(table, b, found),
            forall|j: int|
                0 <= j < index && (#[trigger] bytes@[j]) < 0x80 ==> keeps(table, bytes@[j] as char),
        decreases bytes@.len() - index,
    {
        let found = lookup(bytes[index]);
        assert(agrees(table, bytes@[index as int], found));
        if let Some(text) = found {
            return Some((index, text));
        }
        index += 1;
    }
    None
}

/// Writes `value` to `f`, each character replaced as `table` says.
///
/// `lookup` is the table in executable form, asked byte by byte. Nothing is
/// written for an empty `value`. The first write that the sink refuses ends the
/// work, and its error is returned.
pub(crate) fn write_replaced<W, T>(
    f: &mut W,
    value: &str,
    lookup: T,
    Ghost(table): Ghost<spec_fn(char) -> Seq<char>>,
) -> (res: Result<(), W::Error>) where W: WriterExt, T: Fn(u8) -> Option<&'static str>
    requires
        forall|b: u8| call_requires(lookup, (b,)),
        forall|b: u8, found: Option<&'static str>|
            call_ensures(lookup, (b,), found) ==> agrees(table, b, found),
        forall|c: char| !is_ascii_char(c) ==> keeps(table, c),
    ensures
        res is Ok ==> final(f).written() == old(f).written() + replace_each(value@, table),
        W::infallible() ==> res is Ok,
{
    if value.is_empty() {
        return Ok(());
    }
    let mut rest: &str = value;
    loop
        invariant
            forall|b: u8| call_requires(lookup, (b,)),
            forall|b: u8, found: Option<&'static str>|
                call_ensures(lookup, (b,), found) ==> agrees(table, b, found),
            forall|c: char| !is_ascii_char(c) ==> keeps(table, c),
            old(f).written() + replace_each(value@, table) == f.written() + replace_each(
                rest@,
                table,
            ),
        decreases rest@.len(),
    {
        let ghost before = f.written();
        match first_entry(rest.as_bytes(), &lookup, Ghost(table)) {
            Some((index, text)) => {
                let (head, tail) = split_before_ascii(rest, index);
                if index > 0 {
                    f.write_str(head)?;
                } else {
                    assert(head@ =~= Seq::<char>::empty()) by {
                        if head@.len() > 0 {
                            assert(encode_utf8(head@).len() > 0);
                        }
                    }
                }
                f.write_str(text)?;
                let after = skip_ascii(tail);
                proof {
                    lemma_kept_bytes_kept_chars(head@, table);
                    lemma_replace_each_kept(head@, table);
                    lemma_replace_each_concat(head@, tail@, table);
                    assert(before + replace_each(rest@, table) =~= f.written() + replace_each(
                        after@,
                        table,
                    ));
                }
                rest = after;
            },
            None => {
                proof {
                    lemma_kept_bytes_kept_chars(rest@, table);
                    lemma_replace_each_kept(rest@, table);
                }
                return f.write_str(rest);
            },
        }
    }
}

} // verus!
