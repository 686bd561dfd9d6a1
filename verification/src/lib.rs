//! A compiler for the rgo language: lexing, parsing, signatures, symbol tables and the
//! text that the assembly back end emits.

pub mod compiler;
pub mod name_set;
pub mod text;

pub use compiler::compile;
pub use compiler::error::{Code, Error};

use vstd::prelude::*;

use vstd::string::*;

use crate::text::{hex_digit_char, push_char, push_str};

verus! {

// ---------------------------------------------------------------------------
// Function names
// ---------------------------------------------------------------------------

/// A character that may stand in an assembly symbol: an ASCII letter or digit, or `_`.
pub open spec fn is_symbol_char(c: char) -> bool {
    ('a' <= c && c <= 'z') || ('A' <= c && c <= 'Z') || ('0' <= c && c <= '9') || c == '_'
}

/// `name` with every character that may not stand in a symbol replaced by `_`.
pub open spec fn sanitized(name: Seq<char>) -> Seq<char> {
    Seq::new(name.len(), |i: int| if is_symbol_char(name[i]) { name[i] } else { '_' })
}

/// `name` with every character other than an ASCII letter, digit or `_` replaced by `_`.
pub fn sanitize_function_name(name: &str) -> (r: String)
    ensures
        r@ == sanitized(name@),
{
    let n = name.unicode_len();
    let mut out = String::new();
    let mut i: usize = 0;
    while i < n
        invariant
            n == name@.len(),
            i <= n,
            out@ =~= sanitized(name@).take(i as int),
        decreases n - i,
    {
        let c = name.get_char(i);
        let keep = ('a' <= c && c <= 'z') || ('A' <= c && c <= 'Z') || ('0' <= c && c <= '9') || c == '_';
        if keep {
            push_char(&mut out, c);
        } else {
            push_char(&mut out, '_');
        }
        i = i + 1;
    }
    out
}

/// What follows the last `/` of a path (the whole path when it has none).
pub open spec fn last_slug_of(path: Seq<char>) -> Seq<char>
    decreases path.len(),
{
    if path.len() == 0 {
        path
    } else if path.last() == '/' {
        seq![]
    } else {
        last_slug_of(path.drop_last()).push(path.last())
    }
}

/// After the last `/`, the slug is the rest of the path.
proof fn lemma_last_slug_from(path: Seq<char>, start: int)
    requires
        0 <= start <= path.len(),
        start == 0 || path[start - 1] == '/',
        forall|j: int| start <= j < path.len() ==> path[j] != '/',
    ensures
        last_slug_of(path) == path.subrange(start, path.len() as int),
    decreases path.len(),
{
    if path.len() > start {
        lemma_last_slug_from(path.drop_last(), start);
        assert(path.drop_last().subrange(start, path.len() - 1).push(path.last())
            =~= path.subrange(start, path.len() as int));
    } else if path.len() > 0 {
        assert(path.subrange(start, path.len() as int) =~= Seq::<char>::empty());
    } else {
        assert(path.subrange(start, path.len() as int) =~= path);
    }
}

/// The last segment of a `/`-separated path.
pub fn last_slug(path: &str) -> (r: &str)
    ensures
        r@ == last_slug_of(path@),
{
    let n = path.unicode_len();
    let mut start: usize = n;
    while start > 0 && path.get_char(start - 1) != '/'
        invariant
            n == path@.len(),
            start <= n,
            forall|j: int| start <= j < n ==> path@[j] != '/',
        decreases start,
    {
        start = start - 1;
    }
    proof {
        lemma_last_slug_from(path@, start as int);
    }
    path.substring_char(start, n)
}

// ---------------------------------------------------------------------------
// String literals in the data section
// ---------------------------------------------------------------------------

/// A byte that is written inside a quoted string: printable ASCII, space included.
pub open spec fn is_plain_byte(b: u8) -> bool {
    0x20 <= b <= 0x7e
}

/// A quoted run of printable bytes, with `"` written as `\"`.
pub open spec fn quoted_chunk(chunk: Seq<u8>) -> Seq<char> {
    seq!['"'] + chunk_body(chunk) + seq!['"']
}

pub open spec fn chunk_body(chunk: Seq<u8>) -> Seq<char>
    decreases chunk.len(),
{
    if chunk.len() == 0 {
        seq![]
    } else if chunk.last() == 0x22u8 {
        chunk_body(chunk.drop_last()) + seq!['\\', '"']
    } else {
        chunk_body(chunk.drop_last()).push(chunk.last() as char)
    }
}

/// How a byte that is not written inside quotes appears: newline, carriage return and
/// tab by their decimal codes, anything else as `0x` and two lowercase hex digits.
pub open spec fn special_byte_text(b: u8) -> Seq<char> {
    if b == 10 {
        "10"@
    } else if b == 13 {
        "13"@
    } else if b == 9 {
        "9"@
    } else {
        seq!['0', 'x', hex_digit_char((b / 16) as int), hex_digit_char((b % 16) as int)]
    }
}

/// The number of printable bytes at the end of `bytes`.
pub open spec fn trailing_plain(bytes: Seq<u8>) -> nat
    decreases bytes.len(),
{
    if bytes.len() == 0 {
        0
    } else if is_plain_byte(bytes.last()) {
        1 + trailing_plain(bytes.drop_last())
    } else {
        0
    }
}

/// The parts of a data-section literal: each maximal run of printable bytes quoted,
/// and each other byte by its code.
pub open spec fn rodata_parts(bytes: Seq<u8>) -> Seq<Seq<char>>
    decreases bytes.len(),
{
    let n = bytes.len();
    let t = trailing_plain(bytes);
    if n == 0 {
        seq![]
    } else if t == 0 {
        rodata_parts(bytes.drop_last()).push(special_byte_text(bytes.last()))
    } else {
        proof {
            lemma_trailing_plain_bound(bytes);
        }
        rodata_parts(bytes.subrange(0, n - t)).push(quoted_chunk(bytes.subrange(n - t, n as int)))
    }
}

/// The parts joined by `, `.
pub open spec fn joined_parts(parts: Seq<Seq<char>>) -> Seq<char>
    decreases parts.len(),
{
    if parts.len() == 0 {
        seq![]
    } else if parts.len() == 1 {
        parts[0]
    } else {
        joined_parts(parts.drop_last()) + ", "@ + parts.last()
    }
}

/// The operand of a `db` directive for the given bytes: the joined parts, or `""` when
/// there are none.
pub open spec fn rodata_text(bytes: Seq<u8>) -> Seq<char> {
    if rodata_parts(bytes).len() == 0 {
        "\"\""@
    } else {
        joined_parts(rodata_parts(bytes))
    }
}

pub proof fn lemma_trailing_plain_bound(bytes: Seq<u8>)
    ensures
        trailing_plain(bytes) <= bytes.len(),
        forall|j: int| bytes.len() - trailing_plain(bytes) <= j < bytes.len() ==> is_plain_byte(#[trigger] bytes[j]),
        trailing_plain(bytes) < bytes.len() ==> !is_plain_byte(bytes[bytes.len() - trailing_plain(bytes) - 1]),
    decreases bytes.len(),
{
    if bytes.len() > 0 {
        lemma_trailing_plain_bound(bytes.drop_last());
        if is_plain_byte(bytes.last()) {
            assert forall|j: int| bytes.len() - trailing_plain(bytes) <= j < bytes.len() implies is_plain_byte(#[trigger] bytes[j]) by {
                if j < bytes.len() - 1 {
                    assert(bytes.drop_last()[j] == bytes[j]);
                }
            }
            if trailing_plain(bytes) < bytes.len() {
                assert(bytes.drop_last()[bytes.len() - trailing_plain(bytes) - 1] == bytes[bytes.len() - trailing_plain(bytes) - 1]);
            }
        }
    }
}

/// A run of `k` printable bytes that follows the start or a non-printable byte is the
/// trailing run.
proof fn lemma_trailing_plain_exact(bytes: Seq<u8>, k: int)
    requires
        0 <= k <= bytes.len(),
        forall|j: int| bytes.len() - k <= j < bytes.len() ==> is_plain_byte(#[trigger] bytes[j]),
        k == bytes.len() || !is_plain_byte(bytes[bytes.len() - k - 1]),
    ensures
        trailing_plain(bytes) == k,
    decreases k,
{
    if k > 0 {
        assert(is_plain_byte(bytes[bytes.len() - 1]));
        let d = bytes.drop_last();
        assert forall|j: int| d.len() - (k - 1) <= j < d.len() implies is_plain_byte(#[trigger] d[j]) by {
            assert(d[j] == bytes[j]);
        }
        if k - 1 < d.len() {
            assert(d[d.len() - (k - 1) - 1] == bytes[bytes.len() - k - 1]);
        }
        lemma_trailing_plain_exact(d, k - 1);
    } else if bytes.len() > 0 {
        assert(!is_plain_byte(bytes[bytes.len() - 1]));
    }
}

/// Joining one more part.
pub(crate) proof fn lemma_joined_push(parts: Seq<Seq<char>>, x: Seq<char>)
    ensures
        joined_parts(parts.push(x)) == (if parts.len() == 0 {
            x
        } else {
            joined_parts(parts) + ", "@ + x
        }),
{
    assert(parts.push(x).drop_last() =~= parts);
    if parts.len() == 0 {
        assert(parts.push(x)[0] == x);
    }
}

/// Joining non-empty parts gives a non-empty text.
pub(crate) proof fn lemma_joined_nonempty(parts: Seq<Seq<char>>)
    requires
        parts.len() > 0,
        forall|i: int| 0 <= i < parts.len() ==> (#[trigger] parts[i]).len() > 0,
    ensures
        joined_parts(parts).len() > 0,
    decreases parts.len(),
{
    if parts.len() > 1 {
        assert(parts.last() == parts[parts.len() - 1]);
    }
}

/// A part is never empty.
proof fn lemma_parts_nonempty(bytes: Seq<u8>)
    ensures
        forall|i: int| 0 <= i < rodata_parts(bytes).len() ==> (#[trigger] rodata_parts(bytes)[i]).len() > 0,
        bytes.len() > 0 ==> rodata_parts(bytes).len() > 0,
    decreases bytes.len(),
{
    let n = bytes.len();
    if n > 0 {
        let t = trailing_plain(bytes);
        lemma_trailing_plain_bound(bytes);
        reveal_strlit("10");
        reveal_strlit("13");
        reveal_strlit("9");
        let p = rodata_parts(bytes);
        if t == 0 {
            lemma_parts_nonempty(bytes.drop_last());
            assert(special_byte_text(bytes.last()).len() > 0);
            assert forall|i: int| 0 <= i < p.len() implies (#[trigger] p[i]).len() > 0 by {
                if i < p.len() - 1 {
                    assert(p[i] == rodata_parts(bytes.drop_last())[i]);
                }
            }
        } else {
            lemma_parts_nonempty(bytes.subrange(0, n - t));
            assert forall|i: int| 0 <= i < p.len() implies (#[trigger] p[i]).len() > 0 by {
                if i < p.len() - 1 {
                    assert(p[i] == rodata_parts(bytes.subrange(0, n - t))[i]);
                }
            }
        }
    }
}

/// The state of the escaping loop: the bytes before the pending run, and the run.
proof fn lemma_split_run(b: Seq<u8>, i: int, chunk: Seq<u8>)
    requires
        0 <= chunk.len() <= i <= b.len(),
        chunk == b.subrange(i - chunk.len(), i),
        forall|j: int| 0 <= j < chunk.len() ==> is_plain_byte(#[trigger] chunk[j]),
        i - chunk.len() == 0 || !is_plain_byte(b[i - chunk.len() - 1]),
    ensures
        trailing_plain(b.subrange(0, i)) == chunk.len(),
        chunk.len() > 0 ==> rodata_parts(b.subrange(0, i)) == rodata_parts(b.subrange(0, i - chunk.len())).push(quoted_chunk(chunk)),
        chunk.len() == 0 ==> b.subrange(0, i) == b.subrange(0, i - chunk.len()),
{
    let pre = b.subrange(0, i);
    let k = chunk.len() as int;
    assert forall|j: int| pre.len() - k <= j < pre.len() implies is_plain_byte(#[trigger] pre[j]) by {
        assert(pre[j] == chunk[j - (i - k)]);
    }
    if k < pre.len() {
        assert(pre[pre.len() - k - 1] == b[i - k - 1]);
    }
    lemma_trailing_plain_exact(pre, k);
    assert(pre.subrange(0, i - k) =~= b.subrange(0, i - k));
    assert(pre.subrange(i - k, i) =~= chunk);
}

/// Appends `, ` and `part` to `output`, or just `part` when `output` is empty.
fn append_part(output: &mut String, part: &str)
    ensures
        final(output)@ == (if old(output)@.len() == 0 {
            part@
        } else {
            old(output)@ + ", "@ + part@
        }),
{
    if output.unicode_len() > 0 {
        push_str(output, ", ");
    }
    push_str(output, part);
}

/// The lowercase hex digit for `d`.
fn hex_digit(d: u8) -> (c: char)
    requires
        d < 16,
    ensures
        c == hex_digit_char(d as int),
{
    if d < 10 {
        (d + 48) as char
    } else {
        (d + 87) as char
    }
}

/// Writes the pending run of printable bytes as a quoted part, and empties it.
fn flush_chunk(output: &mut String, chunk: &mut Vec<u8>)
    ensures
        final(chunk)@.len() == 0,
        final(output)@ == (if old(chunk)@.len() == 0 {
            old(output)@
        } else if old(output)@.len() == 0 {
            quoted_chunk(old(chunk)@)
        } else {
            old(output)@ + ", "@ + quoted_chunk(old(chunk)@)
        }),
{
    if chunk.len() == 0 {
        return;
    }
    let mut literal = String::new();
    push_char(&mut literal, '"');
    let mut i: usize = 0;
    while i < chunk.len()
        invariant
            i <= chunk@.len(),
            literal@ == seq!['"'] + chunk_body(chunk@.take(i as int)),
        decreases chunk@.len() - i,
    {
        let byte = chunk[i];
        proof {
            assert(chunk@.take(i + 1).drop_last() =~= chunk@.take(i as int));
        }
        if byte == 0x22u8 {
            push_char(&mut literal, '\\');
            push_char(&mut literal, '"');
        } else {
            push_char(&mut literal, byte as char);
        }
        i = i + 1;
    }
    push_char(&mut literal, '"');
    proof {
        assert(chunk@.take(chunk@.len() as int) =~= chunk@);
    }
    append_part(output, literal.as_str());
    chunk.clear();
}

/// The operand of a NASM `db` directive that spells out the bytes of `literal`:
/// printable runs in double quotes, other bytes by number, joined by `, `.
pub fn escape_literal_for_rodata(literal: &str) -> (r: String)
    ensures
        r@ == rodata_text(literal.spec_bytes()),
{
    let bytes = literal.as_bytes();
    let ghost b = bytes@;
    let mut output = String::new();
    let mut chunk: Vec<u8> = Vec::new();
    let mut i: usize = 0;
    while i < bytes.len()
        invariant
            b == bytes@,
            b == literal.spec_bytes(),
            i <= b.len(),
            chunk@.len() <= i,
            chunk@ == b.subrange(i - chunk@.len(), i as int),
            forall|j: int| 0 <= j < chunk@.len() ==> is_plain_byte(#[trigger] chunk@[j]),
            i - chunk@.len() == 0 || !is_plain_byte(b[i - chunk@.len() - 1]),
            output@ == joined_parts(rodata_parts(b.subrange(0, i - chunk@.len()))),
        decreases b.len() - i,
    {
        let byte = bytes[i];
        let ghost start = i - chunk@.len();
        if 0x20u8 <= byte && byte <= 0x7eu8 {
            chunk.push(byte);
            proof {
                assert(chunk@ =~= b.subrange(start, i + 1));
            }
        } else {
            proof {
                lemma_split_run(b, i as int, chunk@);
                lemma_parts_nonempty(b.subrange(0, start));
                lemma_joined_push(rodata_parts(b.subrange(0, start)), quoted_chunk(chunk@));
                if rodata_parts(b.subrange(0, start)).len() > 0 {
                    lemma_joined_nonempty(rodata_parts(b.subrange(0, start)));
                }
            }
            flush_chunk(&mut output, &mut chunk);
            proof {
                let pre = b.subrange(0, i as int);
                lemma_parts_nonempty(pre);
                assert(output@ == joined_parts(rodata_parts(pre)));
            }
            let text: String = if byte == 10u8 {
                "10".to_string()
            } else if byte == 13u8 {
                "13".to_string()
            } else if byte == 9u8 {
                "9".to_string()
            } else {
                let mut t = String::new();
                push_char(&mut t, '0');
                push_char(&mut t, 'x');
                push_char(&mut t, hex_digit(byte / 16));
                push_char(&mut t, hex_digit(byte % 16));
                t
            };
            proof {
                reveal_strlit("10");
                reveal_strlit("13");
                reveal_strlit("9");
                assert(text@ == special_byte_text(byte));
            }
            append_part(&mut output, text.as_str());
            proof {
                let pre = b.subrange(0, i as int);
                let post = b.subrange(0, i + 1);
                assert(post.drop_last() =~= pre);
                assert(post.last() == byte);
                assert(trailing_plain(post) == 0);
                lemma_parts_nonempty(pre);
                if rodata_parts(pre).len() > 0 {
                    lemma_joined_nonempty(rodata_parts(pre));
                }
                lemma_joined_push(rodata_parts(pre), special_byte_text(byte));
                assert(rodata_parts(post) == rodata_parts(pre).push(special_byte_text(byte)));
                assert(chunk@ =~= b.subrange(i + 1, i + 1));
            }
        }
        i = i + 1;
    }
    proof {
        let start = b.len() - chunk@.len();
        assert(b.subrange(0, b.len() as int) =~= b);
        lemma_split_run(b, b.len() as int, chunk@);
        lemma_parts_nonempty(b.subrange(0, start));
        lemma_joined_push(rodata_parts(b.subrange(0, start)), quoted_chunk(chunk@));
        if rodata_parts(b.subrange(0, start)).len() > 0 {
            lemma_joined_nonempty(rodata_parts(b.subrange(0, start)));
        }
    }
    flush_chunk(&mut output, &mut chunk);
    proof {
        lemma_parts_nonempty(b);
        assert(output@ == joined_parts(rodata_parts(b)));
    }
    if output.unicode_len() == 0 {
        proof {
            lemma_parts_nonempty(b);
            if rodata_parts(b).len() > 0 {
                lemma_joined_nonempty(rodata_parts(b));
            }
        }
        return "\"\"".to_string();
    }
    output
}

} // verus!
