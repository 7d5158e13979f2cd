//! Base-85 decoder for delimited printable-ASCII envelopes.
//!
//! An envelope is bounded by the two-byte start delimiter `<~` and the
//! two-byte end delimiter `~>`. The interior may hold symbol bytes in the
//! range `[33, 117]` and line-feed/carriage-return whitespace, which carries
//! no meaning and is stripped. Every full group of five symbols decodes to
//! four output bytes by positional base-85 arithmetic; a trailing partial
//! group of `n` symbols is right-padded with the pad symbol `u` (value 117),
//! decoded as a full group, and truncated to its first `n - 1` bytes.
//!
//! Delimiter choice is deterministic: the first start delimiter of the input,
//! and the first end delimiter that begins at or after the interior's start.

use vstd::prelude::*;
use vstd::slice::slice_subrange;

use crate::errors::LayerError;

verus! {

/// A byte in the base-85 symbol alphabet: 85 consecutive codepoints from `!`.
pub open spec fn is_symbol(b: u8) -> bool {
    33 <= b && b <= 117
}

/// Whitespace tolerated (and stripped) inside an envelope.
pub open spec fn is_envelope_ws(b: u8) -> bool {
    b == 10 || b == 13
}

/// The first index at or after `i` where the byte pair `(a, b)` occurs.
pub open spec fn find_pair_from(s: Seq<u8>, a: u8, b: u8, i: int) -> Option<int>
    decreases s.len() - i when 0 <= i
{
    if i + 1 >= s.len() {
        None
    } else if s[i] == a && s[i + 1] == b {
        Some(i)
    } else {
        find_pair_from(s, a, b, i + 1)
    }
}

/// The bytes strictly between the first start delimiter `<~` and the first
/// end delimiter `~>` that begins at or after them, or `None` if either
/// delimiter is absent.
pub open spec fn envelope_interior(s: Seq<u8>) -> Option<Seq<u8>> {
    match find_pair_from(s, 60, 126, 0) {
        None => None,
        Some(st) => match find_pair_from(s, 126, 62, st + 2) {
            None => None,
            Some(en) => Some(s.subrange(st + 2, en)),
        },
    }
}

/// Every interior byte is 7-bit ASCII.
pub open spec fn all_ascii(s: Seq<u8>) -> bool {
    forall|k: int| 0 <= k < s.len() ==> s[k] < 128
}

/// Every interior byte is either a symbol or tolerated whitespace.
pub open spec fn all_symbol_or_ws(s: Seq<u8>) -> bool {
    forall|k: int| 0 <= k < s.len() ==> is_symbol(s[k]) || is_envelope_ws(s[k])
}

/// The interior with all whitespace bytes removed, order preserved.
pub open spec fn strip_ws(s: Seq<u8>) -> Seq<u8>
    decreases s.len(),
{
    if s.len() == 0 {
        Seq::empty()
    } else if is_envelope_ws(s[0]) {
        strip_ws(s.skip(1))
    } else {
        seq![s[0]] + strip_ws(s.skip(1))
    }
}

/// The positional value of a five-symbol group: digits are `byte - 33`,
/// weights are the powers of 85.
pub open spec fn group_val(g: Seq<u8>) -> int
    recommends
        g.len() == 5,
{
    (g[0] - 33) * 52200625 + (g[1] - 33) * 614125 + (g[2] - 33) * 7225 + (g[3] - 33) * 85 + (g[4]
        - 33)
}

/// A 32-bit value split big-endian into four bytes.
pub open spec fn be32_bytes(v: int) -> Seq<u8> {
    seq![
        ((v / 0x1000000) % 256) as u8,
        ((v / 0x10000) % 256) as u8,
        ((v / 0x100) % 256) as u8,
        (v % 256) as u8,
    ]
}

/// The four output bytes of one full symbol group: the group's value, kept to
/// 32-bit capacity, split big-endian.
pub open spec fn group_bytes(g: Seq<u8>) -> Seq<u8>
    recommends
        g.len() == 5,
{
    be32_bytes(group_val(g) % 0x100000000)
}

/// A partial group right-padded to five symbols with the pad symbol.
pub open spec fn pad_group(s: Seq<u8>) -> Seq<u8>
    recommends
        s.len() <= 5,
{
    s + Seq::new((5 - s.len()) as nat, |i: int| 117u8)
}

/// The decoded bytes of a whitespace-free symbol sequence: full groups of
/// five decode to four bytes each; a trailing partial group of `n` symbols is
/// padded, decoded, and truncated to `n - 1` bytes.
pub open spec fn decode_symbols(s: Seq<u8>) -> Seq<u8>
    decreases s.len(),
{
    if s.len() == 0 {
        Seq::empty()
    } else if s.len() >= 5 {
        group_bytes(s.take(5)) + decode_symbols(s.skip(5))
    } else {
        group_bytes(pad_group(s)).take(s.len() - 1)
    }
}

/// Splitting off a whole prefix of groups decodes each part independently.
proof fn lemma_decode_symbols_append(a: Seq<u8>, b: Seq<u8>)
    requires
        a.len() % 5 == 0,
    ensures
        decode_symbols(a + b) == decode_symbols(a) + decode_symbols(b),
    decreases a.len(),
{
    if a.len() == 0 {
        assert(a + b =~= b);
        assert(decode_symbols(a) =~= Seq::empty());
        assert(decode_symbols(a) + decode_symbols(b) =~= decode_symbols(b));
    } else {
        let ab = a + b;
        assert(ab.take(5) =~= a.take(5));
        assert(ab.skip(5) =~= a.skip(5) + b);
        lemma_decode_symbols_append(a.skip(5), b);
        assert(decode_symbols(a + b) =~= decode_symbols(a) + decode_symbols(b));
    }
}

/// Decoding a prefix that grows by one full group appends that group's bytes.
proof fn lemma_decode_step(s: Seq<u8>, idx: int)
    requires
        0 <= idx,
        idx % 5 == 0,
        idx + 5 <= s.len(),
    ensures
        decode_symbols(s.take(idx + 5)) == decode_symbols(s.take(idx)) + group_bytes(
            s.subrange(idx, idx + 5),
        ),
{
    let pre = s.take(idx);
    let chunk = s.subrange(idx, idx + 5);
    assert(s.take(idx + 5) =~= pre + chunk);
    lemma_decode_symbols_append(pre, chunk);
    assert(chunk.take(5) =~= chunk);
    assert(chunk.skip(5) =~= Seq::<u8>::empty());
    assert(decode_symbols(Seq::<u8>::empty()) =~= Seq::<u8>::empty());
    assert(decode_symbols(chunk) =~= group_bytes(chunk));
}

/// Stripping whitespace distributes over concatenation.
proof fn lemma_strip_ws_append(a: Seq<u8>, b: Seq<u8>)
    ensures
        strip_ws(a + b) == strip_ws(a) + strip_ws(b),
    decreases a.len(),
{
    if a.len() == 0 {
        assert(a + b =~= b);
        assert(strip_ws(a) + strip_ws(b) =~= strip_ws(b));
    } else {
        let ab = a + b;
        assert(ab[0] == a[0]);
        assert(ab.skip(1) =~= a.skip(1) + b);
        lemma_strip_ws_append(a.skip(1), b);
        if is_envelope_ws(a[0]) {
            assert(strip_ws(a + b) =~= strip_ws(a) + strip_ws(b));
        } else {
            assert(strip_ws(a + b) =~= strip_ws(a) + strip_ws(b));
        }
    }
}

/// Decodes one full five-symbol group into its four output bytes.
fn decode_chunk(chunk: &[u8]) -> (r: [u8; 4])
    requires
        chunk@.len() == 5,
        forall|k: int| 0 <= k < 5 ==> is_symbol(chunk@[k]),
    ensures
        r@ == group_bytes(chunk@),
{
    let digit1 = (chunk[0] - 33) as u64;
    let digit2 = (chunk[1] - 33) as u64;
    let digit3 = (chunk[2] - 33) as u64;
    let digit4 = (chunk[3] - 33) as u64;
    let digit5 = (chunk[4] - 33) as u64;

    let input: u64 = digit1 * 52200625 + digit2 * 614125 + digit3 * 7225 + digit4 * 85 + digit5;

    proof {
        assert(input == group_val(chunk@));
    }

    let first_byte = ((input >> 24) & 0xff) as u8;
    let second_byte = ((input >> 16) & 0xff) as u8;
    let third_byte = ((input >> 8) & 0xff) as u8;
    let fourth_byte = (input & 0xff) as u8;

    proof {
        assert((((input >> 24) & 0xff) as u8) == (((input % 0x100000000) / 0x1000000) % 256) as u8)
            by (bit_vector);
        assert((((input >> 16) & 0xff) as u8) == (((input % 0x100000000) / 0x10000) % 256) as u8)
            by (bit_vector);
        assert((((input >> 8) & 0xff) as u8) == (((input % 0x100000000) / 0x100) % 256) as u8)
            by (bit_vector);
        assert(((input & 0xff) as u8) == ((input % 0x100000000) % 256) as u8) by (bit_vector);
        assert([first_byte, second_byte, third_byte, fourth_byte]@ =~= group_bytes(chunk@));
    }

    [first_byte, second_byte, third_byte, fourth_byte]
}

/// Slices the interior out of a delimited envelope: everything after the
/// first `<~` and before the first `~>` that follows it.
fn trim_start_and_end_delimiters(bytes: &[u8]) -> (r: Result<Vec<u8>, LayerError>)
    ensures
        match envelope_interior(bytes@) {
            None => r matches Err(e) && e == LayerError::MissingDelimiter,
            Some(inner) => r matches Ok(v) && v@ == inner,
        },
{
    let s = Ghost(bytes@);
    let n = bytes.len();
    if n < 2 {
        return Err(LayerError::MissingDelimiter);
    }

    let mut i: usize = 0;
    let mut start: usize = 0;
    let mut found_start = false;
    while i < n - 1
        invariant
            s@ == bytes@,
            n == bytes@.len(),
            2 <= n,
            i <= n - 1,
            !found_start ==> find_pair_from(s@, 60, 126, 0) == find_pair_from(s@, 60, 126, i as int),
            found_start ==> find_pair_from(s@, 60, 126, 0) == Some(start as int) && start + 2 <= n,
        decreases n - i,
    {
        if !found_start {
            if bytes[i] == 60 && bytes[i + 1] == 126 {
                start = i;
                found_start = true;
            } else {
                proof {
                    assert(find_pair_from(s@, 60, 126, i as int) == find_pair_from(
                        s@,
                        60,
                        126,
                        i as int + 1,
                    ));
                }
            }
        }
        i = i + 1;
    }

    if !found_start {
        proof {
            assert(find_pair_from(s@, 60, 126, i as int) is None);
        }
        return Err(LayerError::MissingDelimiter);
    }

    let inner_start = start + 2;
    let mut j: usize = inner_start;
    let mut end: usize = 0;
    let mut found_end = false;
    while j < n - 1
        invariant
            s@ == bytes@,
            n == bytes@.len(),
            2 <= n,
            inner_start <= n,
            j >= inner_start,
            !found_end ==> find_pair_from(s@, 126, 62, inner_start as int) == find_pair_from(
                s@,
                126,
                62,
                j as int,
            ),
            found_end ==> find_pair_from(s@, 126, 62, inner_start as int) == Some(end as int)
                && inner_start <= end && end + 1 < n,
        decreases n - j,
    {
        if !found_end {
            if bytes[j] == 126 && bytes[j + 1] == 62 {
                end = j;
                found_end = true;
            } else {
                proof {
                    assert(find_pair_from(s@, 126, 62, j as int) == find_pair_from(
                        s@,
                        126,
                        62,
                        j as int + 1,
                    ));
                }
            }
        }
        j = j + 1;
    }

    if !found_end {
        proof {
            assert(find_pair_from(s@, 126, 62, j as int) is None);
        }
        return Err(LayerError::MissingDelimiter);
    }

    let mut v: Vec<u8> = Vec::new();
    let mut k: usize = inner_start;
    while k < end
        invariant
            s@ == bytes@,
            n == bytes@.len(),
            inner_start <= k <= end,
            end < n,
            v@ == bytes@.subrange(inner_start as int, k as int),
        decreases end - k,
    {
        v.push(bytes[k]);
        proof {
            assert(v@ =~= bytes@.subrange(inner_start as int, k as int + 1));
        }
        k = k + 1;
    }

    Ok(v)
}

/// Decodes one delimited base-85 envelope into raw bytes.
///
/// The result is a pure function of the input: the interior between the
/// first `<~` and the first following `~>` must be 7-bit ASCII and hold only
/// symbol or whitespace bytes; whitespace is stripped, and the remaining
/// symbols decode group by group. Each failure names its exact cause.
#[verifier::rlimit(50)]
pub fn decode(bytes: &[u8]) -> (r: Result<Vec<u8>, LayerError>)
    ensures
        match envelope_interior(bytes@) {
            None => r matches Err(e) && e == LayerError::MissingDelimiter,
            Some(inner) => if !all_ascii(inner) {
                r matches Err(e) && e == LayerError::NonAsciiInput
            } else if !all_symbol_or_ws(inner) {
                r matches Err(e) && e == LayerError::InvalidSymbol
            } else {
                r matches Ok(v) && v@ == decode_symbols(strip_ws(inner))
            },
        },
{
    let buffer = match trim_start_and_end_delimiters(bytes) {
        Ok(b) => b,
        Err(e) => {
            return Err(e);
        },
    };
    let inner = Ghost(buffer@);

    let mut i: usize = 0;
    while i < buffer.len()
        invariant
            inner@ == buffer@,
            envelope_interior(bytes@) == Some(inner@),
            forall|k: int| 0 <= k < i ==> buffer@[k] < 128,
        decreases buffer.len() - i,
    {
        if buffer[i] >= 128 {
            proof {
                assert(!all_ascii(inner@));
            }
            return Err(LayerError::NonAsciiInput);
        }
        i = i + 1;
    }
    proof {
        assert(all_ascii(inner@));
    }

    let mut i: usize = 0;
    while i < buffer.len()
        invariant
            inner@ == buffer@,
            envelope_interior(bytes@) == Some(inner@),
            all_ascii(inner@),
            forall|k: int| 0 <= k < i ==> is_symbol(buffer@[k]) || is_envelope_ws(buffer@[k]),
        decreases buffer.len() - i,
    {
        let byte = buffer[i];
        let in_range = byte >= 33 && byte <= 117;
        let whitespace = byte == 10 || byte == 13;
        if !(in_range || whitespace) {
            proof {
                assert(!is_symbol(inner@[i as int]) && !is_envelope_ws(inner@[i as int]));
                assert(!all_symbol_or_ws(inner@));
            }
            return Err(LayerError::InvalidSymbol);
        }
        i = i + 1;
    }
    proof {
        assert(all_symbol_or_ws(inner@));
    }

    // strip all whitespace from the encoded data, keeping symbol order
    let mut stripped: Vec<u8> = Vec::new();
    let mut i: usize = 0;
    while i < buffer.len()
        invariant
            inner@ == buffer@,
            i <= buffer@.len(),
            all_symbol_or_ws(buffer@),
            stripped@ == strip_ws(buffer@.take(i as int)),
            forall|k: int| 0 <= k < stripped@.len() ==> is_symbol(stripped@[k]),
        decreases buffer.len() - i,
    {
        let byte = buffer[i];
        proof {
            assert(buffer@.take(i as int + 1) =~= buffer@.take(i as int) + seq![buffer@[i as int]]);
            lemma_strip_ws_append(buffer@.take(i as int), seq![buffer@[i as int]]);
            let sb = seq![byte];
            assert(sb.len() == 1 && sb[0] == byte);
            assert(sb.skip(1) =~= Seq::<u8>::empty());
            assert(strip_ws(Seq::<u8>::empty()) =~= Seq::<u8>::empty());
            if is_envelope_ws(byte) {
                assert(strip_ws(sb) =~= Seq::<u8>::empty());
                assert(strip_ws(buffer@.take(i as int + 1)) =~= stripped@);
            } else {
                assert(strip_ws(sb) =~= seq![byte]);
            }
        }
        if !(byte == 10 || byte == 13) {
            stripped.push(byte);
            proof {
                assert(stripped@ =~= strip_ws(buffer@.take(i as int + 1)));
            }
        }
        i = i + 1;
    }
    proof {
        assert(buffer@.take(buffer@.len() as int) =~= buffer@);
    }

    let symbols = Ghost(stripped@);
    let mut decoded: Vec<u8> = Vec::new();
    let mut idx: usize = 0;
    while stripped.len() - idx >= 5
        invariant
            symbols@ == stripped@,
            idx <= stripped@.len(),
            idx % 5 == 0,
            forall|k: int| 0 <= k < stripped@.len() ==> is_symbol(stripped@[k]),
            decoded@ == decode_symbols(stripped@.take(idx as int)),
        decreases stripped.len() - idx,
    {
        let chunk = slice_subrange(stripped.as_slice(), idx, idx + 5);
        let out = decode_chunk(chunk);
        decoded.push(out[0]);
        decoded.push(out[1]);
        decoded.push(out[2]);
        decoded.push(out[3]);
        proof {
            lemma_decode_step(stripped@, idx as int);
            assert(decoded@ =~= decode_symbols(stripped@.take(idx as int + 5)));
        }
        idx = idx + 5;
    }

    // decode any trailing partial group by padding it with the pad symbol
    let total = stripped.len();
    let rem = total - idx;
    if rem > 0 {
        let mut padded: Vec<u8> = Vec::new();
        let mut k: usize = 0;
        while k < rem
            invariant
                symbols@ == stripped@,
                total == stripped@.len(),
                rem == stripped@.len() - idx,
                0 < rem < 5,
                idx + rem == total,
                k <= rem,
                padded@ == stripped@.subrange(idx as int, idx + k),
            decreases rem - k,
        {
            padded.push(stripped[idx + k]);
            proof {
                assert(padded@ =~= stripped@.subrange(idx as int, idx + k + 1));
            }
            k = k + 1;
        }
        while padded.len() < 5
            invariant
                symbols@ == stripped@,
                rem == stripped@.len() - idx,
                0 < rem < 5,
                idx + rem == stripped@.len(),
                rem <= padded@.len() <= 5,
                forall|t: int| 0 <= t < rem ==> padded@[t] == stripped@[idx + t],
                forall|t: int| rem <= t < padded@.len() ==> padded@[t] == 117u8,
            decreases 5 - padded.len(),
        {
            padded.push(117);
        }
        proof {
            assert(padded@ =~= pad_group(stripped@.skip(idx as int)));
            assert(forall|t: int| 0 <= t < 5 ==> is_symbol(padded@[t]));
        }
        let last = decode_chunk(padded.as_slice());
        let keep = rem - 1;
        let ghost tail = group_bytes(pad_group(stripped@.skip(idx as int)));
        let mut t: usize = 0;
        while t < keep
            invariant
                symbols@ == stripped@,
                keep < 4,
                last@.len() == 4,
                last@ == tail,
                t <= keep,
                idx <= stripped@.len(),
                decoded@ == decode_symbols(stripped@.take(idx as int)) + tail.take(t as int),
            decreases keep - t,
        {
            decoded.push(last[t]);
            proof {
                assert(decoded@ =~= decode_symbols(stripped@.take(idx as int)) + tail.take(
                    t as int + 1,
                ));
            }
            t = t + 1;
        }
        proof {
            lemma_decode_symbols_append(stripped@.take(idx as int), stripped@.skip(idx as int));
            assert(stripped@.take(idx as int) + stripped@.skip(idx as int) =~= stripped@);
            assert(decode_symbols(stripped@.skip(idx as int)) == tail.take(keep as int));
            assert(decoded@ =~= decode_symbols(stripped@));
        }
    } else {
        proof {
            assert(stripped@.take(idx as int) =~= stripped@);
        }
    }

    Ok(decoded)
}

} // verus!
