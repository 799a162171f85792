//! Text helpers: UTF-8 checks, line chunking and line splitting.

use vstd::prelude::*;
use vstd::string::*;
use vstd::utf8::*;

verus! {

/// `String::from_utf8`: the text that `bytes` encode, or `None` when they are not UTF-8.
#[verifier::external_body]
pub(crate) fn string_from_utf8(bytes: Vec<u8>) -> (r: Option<String>)
    ensures
        r is Some <==> valid_utf8(bytes@),
        r matches Some(s) ==> s@ == decode_utf8(bytes@),
{
    String::from_utf8(bytes).ok()
}


/// The longest piece a typed line is cut into before it is sent.
pub const USER_LINES: usize = 64;

/// How many pieces of at most [`USER_LINES`] bytes `n` bytes are cut into.
pub open spec fn num_chunks(n: nat) -> nat {
    ((n + 63) / 64) as nat
}

/// The `j`-th piece of `b`: bytes `64 j` up to `64 j + 64` (or the end).
pub open spec fn chunk(b: Seq<u8>, j: int) -> Seq<u8> {
    b.subrange(64 * j, if 64 * j + 64 <= b.len() { 64 * j + 64 } else { b.len() as int })
}

/// The first `k` pieces of `b`, each preceded by `header` and followed by a newline.
pub open spec fn interleaved_upto(b: Seq<u8>, header: Seq<u8>, k: nat) -> Seq<u8>
    decreases k,
{
    if k == 0 {
        Seq::empty()
    } else {
        interleaved_upto(b, header, (k - 1) as nat) + header + chunk(b, k - 1) + seq![10u8]
    }
}

/// `b` cut into pieces of at most 64 bytes, each piece preceded by `header` and followed by
/// a newline.
pub open spec fn interleaved(b: Seq<u8>, header: Seq<u8>) -> Seq<u8> {
    interleaved_upto(b, header, num_chunks(b.len()))
}

/// The bytes of an optional header (none when absent).
pub open spec fn header_bytes(header: Option<Vec<u8>>) -> Seq<u8> {
    match header {
        Some(h) => h@,
        None => Seq::empty(),
    }
}

/// Appends `src[from..to]` to `acc`.
pub fn append_range(acc: &mut Vec<u8>, src: &[u8], from: usize, to: usize)
    requires
        from <= to <= src@.len(),
    ensures
        final(acc)@ == old(acc)@ + src@.subrange(from as int, to as int),
{
    let mut i = from;
    while i < to
        invariant
            from <= i <= to <= src@.len(),
            acc@ == old(acc)@ + src@.subrange(from as int, i as int),
        decreases to - i,
    {
        acc.push(src[i]);
        i = i + 1;
        assert(acc@ =~= old(acc)@ + src@.subrange(from as int, i as int));
    }
}

/// There is a `k`-th piece exactly when `64 k` is short of the end.
pub proof fn lemma_num_chunks(n: nat, k: nat)
    ensures
        k < num_chunks(n) <==> 64 * k < n,
{
    assert(k < (n + 63) / 64 <==> 64 * k < n) by (nonlinear_arith);
}

/// Reading `b` front to back: the non-empty lines already closed by a newline, and the
/// line still open.
pub open spec fn split_state(b: Seq<u8>) -> (Seq<Seq<u8>>, Seq<u8>)
    decreases b.len(),
{
    if b.len() == 0 {
        (Seq::empty(), Seq::empty())
    } else {
        let (done, cur) = split_state(b.drop_last());
        if b.last() == 10u8 {
            (if cur.len() > 0 { done.push(cur) } else { done }, Seq::empty())
        } else {
            (done, cur.push(b.last()))
        }
    }
}

/// The non-empty pieces of `b` between newlines, in order.
pub open spec fn nonempty_lines(b: Seq<u8>) -> Seq<Seq<u8>> {
    let (done, cur) = split_state(b);
    if cur.len() > 0 {
        done.push(cur)
    } else {
        done
    }
}

/// The byte contents of each line held.
pub open spec fn lines_view(lines: Seq<Vec<u8>>) -> Seq<Seq<u8>> {
    lines.map_values(|l: Vec<u8>| l@)
}

/// Splits `msg` at each newline and keeps the non-empty pieces, in order.
pub fn message_lines(msg: &[u8]) -> (lines: Vec<Vec<u8>>)
    ensures
        lines_view(lines@) == nonempty_lines(msg@),
{
    let mut done: Vec<Vec<u8>> = Vec::new();
    let mut cur: Vec<u8> = Vec::new();
    let mut i: usize = 0;
    while i < msg.len()
        invariant
            i <= msg@.len(),
            (lines_view(done@), cur@) == split_state(msg@.take(i as int)),
        decreases msg@.len() - i,
    {
        let byte = msg[i];
        let ghost prefix = msg@.take(i as int + 1);
        let ghost before = lines_view(done@);
        assert(prefix.drop_last() =~= msg@.take(i as int));
        if byte == 10u8 {
            if cur.len() > 0 {
                let line = cur;
                cur = Vec::new();
                done.push(line);
                assert(lines_view(done@) =~= before.push(line@));
            }
        } else {
            cur.push(byte);
        }
        i = i + 1;
        assert(lines_view(done@) =~= split_state(prefix).0);
        assert(cur@ =~= split_state(prefix).1);
    }
    assert(msg@.take(msg@.len() as int) =~= msg@);
    if cur.len() > 0 {
        let ghost before = lines_view(done@);
        let ghost last = cur@;
        done.push(cur);
        assert(lines_view(done@) =~= before.push(last));
    }
    done
}

/// Appending bytes with no newline only extends the open line.
pub proof fn lemma_split_append_no_newline(x: Seq<u8>, y: Seq<u8>)
    requires
        !y.contains(10u8),
    ensures
        split_state(x + y) == (split_state(x).0, split_state(x).1 + y),
    decreases y.len(),
{
    if y.len() == 0 {
        assert(x + y =~= x);
        assert(split_state(x).1 + y =~= split_state(x).1);
    } else {
        let yl = y.drop_last();
        assert(!yl.contains(10u8)) by {
            if yl.contains(10u8) {
                let j = choose|j: int| 0 <= j < yl.len() && yl[j] == 10u8;
                assert(y[j] == 10u8);
            }
        }
        lemma_split_append_no_newline(x, yl);
        assert((x + y).drop_last() =~= x + yl);
        assert((x + y).last() == y.last());
        assert(y.last() != 10u8) by {
            assert(y[y.len() - 1] == y.last());
        }
        assert((split_state(x).1 + yl).push(y.last()) =~= split_state(x).1 + y);
    }
}

/// The lines of the first `k` pieces are the pieces with their headers.
proof fn lemma_split_interleaved_upto(b: Seq<u8>, h: Seq<u8>, k: nat)
    requires
        !b.contains(10u8),
        !h.contains(10u8),
        k <= num_chunks(b.len()),
    ensures
        split_state(interleaved_upto(b, h, k)) == (
            Seq::new(k, |j: int| h + chunk(b, j)),
            Seq::<u8>::empty(),
        ),
    decreases k,
{
    if k > 0 {
        let km = (k - 1) as nat;
        lemma_split_interleaved_upto(b, h, km);
        lemma_num_chunks(b.len(), km);
        let x = interleaved_upto(b, h, km);
        let piece = h + chunk(b, km as int);
        assert(!piece.contains(10u8)) by {
            if piece.contains(10u8) {
                let j = choose|j: int| 0 <= j < piece.len() && piece[j] == 10u8;
                if j < h.len() {
                    assert(h[j] == 10u8);
                } else {
                    assert(b[64 * km + (j - h.len())] == 10u8);
                }
            }
        }
        lemma_split_append_no_newline(x, piece);
        let whole = interleaved_upto(b, h, k);
        assert(whole == x + piece + seq![10u8]) by {
            assert(x + h + chunk(b, km as int) + seq![10u8] =~= x + piece + seq![10u8]);
        }
        assert(whole.drop_last() =~= x + piece);
        assert(whole.last() == 10u8);
        assert(Seq::<u8>::empty() + piece =~= piece);
        assert(chunk(b, km as int).len() > 0);
        assert(Seq::new(km, |j: int| h + chunk(b, j)).push(piece) =~= Seq::new(
            k,
            |j: int| h + chunk(b, j),
        ));
    } else {
        assert(Seq::new(0, |j: int| h + chunk(b, j)) =~= Seq::<Seq<u8>>::empty());
    }
}

/// A line typed without newlines, cut into pieces each with a newline-free header,
/// splits back into exactly those pieces with their header: what a client sends as one
/// message, the receiver splits into one line per piece.
pub proof fn law_lines_of_interleaved(b: Seq<u8>, h: Seq<u8>)
    requires
        !b.contains(10u8),
        !h.contains(10u8),
    ensures
        nonempty_lines(interleaved(b, h)) == Seq::new(
            num_chunks(b.len()),
            |j: int| h + chunk(b, j),
        ),
{
    lemma_split_interleaved_upto(b, h, num_chunks(b.len()));
}

/// How many bytes of an `n`-byte line piece `j` holds: 64, or what is left at the end.
pub open spec fn part_len(n: nat, j: int) -> int {
    if 64 * j + 64 <= n {
        64
    } else {
        n - 64 * j
    }
}

/// Piece `j` of a cut line `s` whose header is `hl` bytes long and whose line was `n`
/// bytes long, read off by position: every piece before it is a full one.
pub open spec fn piece(s: Seq<u8>, hl: nat, n: nat, j: int) -> Seq<u8> {
    s.subrange(j * (hl + 65), j * (hl + 65) + hl + part_len(n, j) + 1)
}

/// The first `k` pieces stand one after another, each the header, the next bytes of the
/// line and a newline.
proof fn lemma_cut_prefix(b: Seq<u8>, h: Seq<u8>, k: nat)
    requires
        k <= num_chunks(b.len()),
    ensures
        interleaved_upto(b, h, k).len() == k * (h.len() + 1) + (if 64 * k <= b.len() {
            64 * k as int
        } else {
            b.len() as int
        }),
        forall|j: int|
            0 <= j < k ==> #[trigger] piece(interleaved_upto(b, h, k), h.len(), b.len(), j) == h
                + b.subrange(64 * j, 64 * j + part_len(b.len(), j)) + seq![10u8],
    decreases k,
{
    if k > 0 {
        let km = (k - 1) as nat;
        let n = b.len();
        let hl = h.len();
        let l = hl + 65;
        lemma_cut_prefix(b, h, km);
        lemma_num_chunks(n, km);
        let x = interleaved_upto(b, h, km);
        let y = h + chunk(b, km as int) + seq![10u8];
        let whole = interleaved_upto(b, h, k);
        assert(whole =~= x + y);
        assert(x.len() == km * l) by {
            assert(km * (hl + 65) == km * (hl + 1) + 64 * km) by (nonlinear_arith);
        }
        assert(chunk(b, km as int) == b.subrange(64 * km as int, 64 * km + part_len(n, km as int)));
        assert(k * (hl + 1) == km * (hl + 1) + hl + 1) by (nonlinear_arith)
            requires k == km + 1;
        assert forall|j: int| 0 <= j < k implies #[trigger] piece(whole, hl, n, j) == h + b.subrange(
            64 * j,
            64 * j + part_len(n, j),
        ) + seq![10u8] by {
            if j < km {
                assert(part_len(n, j) == 64);
                assert(j * l + l <= km * l) by (nonlinear_arith)
                    requires j + 1 <= km, l > 0;
                assert(whole.subrange(j * l, j * l + hl + 65) =~= x.subrange(j * l, j * l + hl + 65));
                assert(piece(x, hl, n, j) == h + b.subrange(64 * j, 64 * j + part_len(n, j)) + seq![10u8]);
            } else {
                assert(j == km);
                assert(whole.subrange(km * l as int, km * l + hl + part_len(n, j) + 1) =~= y);
            }
        }
    }
}

/// Cutting keeps a typed line whole and in order: the cut line is exactly its pieces one
/// after another, and piece `j` is the header, then bytes `64 j` up to `64 j + 64` (or the
/// end) of the line, then a newline. So stripping each piece's header and newline and
/// joining them gives the line back.
pub proof fn law_cut_keeps_line_in_order(b: Seq<u8>, h: Seq<u8>)
    ensures
        interleaved(b, h).len() == num_chunks(b.len()) * (h.len() + 1) + b.len(),
        forall|j: int|
            0 <= j < num_chunks(b.len()) ==> #[trigger] piece(interleaved(b, h), h.len(), b.len(), j)
                == h + b.subrange(64 * j, 64 * j + part_len(b.len(), j)) + seq![10u8],
{
    let k = num_chunks(b.len());
    lemma_cut_prefix(b, h, k);
    assert(64 * k >= b.len() && (64 * k <= b.len() ==> 64 * k == b.len())) by {
        assert(64 * ((b.len() + 63) / 64) >= b.len()) by (nonlinear_arith);
    }
}

// ---------------------------------------------------------------------------
// Byte-level reading of typed lines
// ---------------------------------------------------------------------------

/// Whether two byte sequences are equal.
pub fn bytes_eq(a: &[u8], b: &[u8]) -> (eq: bool)
    ensures
        eq == (a@ == b@),
{
    if a.len() != b.len() {
        return false;
    }
    let mut i: usize = 0;
    while i < a.len()
        invariant
            a@.len() == b@.len(),
            i <= a@.len(),
            a@.take(i as int) == b@.take(i as int),
        decreases a@.len() - i,
    {
        if a[i] != b[i] {
            assert(a@[i as int] != b@[i as int]);
            return false;
        }
        assert(a@.take(i as int + 1) =~= a@.take(i as int).push(a@[i as int]));
        assert(b@.take(i as int + 1) =~= b@.take(i as int).push(b@[i as int]));
        i = i + 1;
    }
    assert(a@ =~= a@.take(i as int));
    assert(b@ =~= b@.take(i as int));
    true
}

/// Whether `p` is a prefix of `b`.
pub open spec fn is_prefix_of(p: Seq<u8>, b: Seq<u8>) -> bool {
    p.len() <= b.len() && b.take(p.len() as int) == p
}

/// Whether `b` starts with the bytes `p`.
pub fn has_prefix(b: &[u8], p: &[u8]) -> (yes: bool)
    ensures
        yes == is_prefix_of(p@, b@),
{
    if p.len() > b.len() {
        return false;
    }
    let mut i: usize = 0;
    while i < p.len()
        invariant
            p@.len() <= b@.len(),
            i <= p@.len(),
            b@.take(i as int) == p@.take(i as int),
        decreases p@.len() - i,
    {
        if b[i] != p[i] {
            assert(b@.take(p@.len() as int)[i as int] != p@[i as int]);
            return false;
        }
        assert(b@.take(i as int + 1) =~= b@.take(i as int).push(b@[i as int]));
        assert(p@.take(i as int + 1) =~= p@.take(i as int).push(p@[i as int]));
        i = i + 1;
    }
    assert(p@ =~= p@.take(i as int));
    true
}

/// Whether text `s` starts with text `p` (compared as UTF-8 bytes, as `str::starts_with`
/// does).
pub open spec fn starts_with(s: Seq<char>, p: Seq<char>) -> bool {
    is_prefix_of(encode_utf8(p), encode_utf8(s))
}

/// Two texts are equal exactly when their UTF-8 bytes are.
pub proof fn lemma_encode_utf8_injective(a: Seq<char>, b: Seq<char>)
    ensures
        encode_utf8(a) == encode_utf8(b) <==> a == b,
{
    if encode_utf8(a) == encode_utf8(b) {
        encode_utf8_decode_utf8(a);
        encode_utf8_decode_utf8(b);
    }
}

/// Whether two texts are equal, compared by their bytes.
pub fn str_eq(a: &str, b: &str) -> (eq: bool)
    ensures
        eq == (a@ == b@),
{
    let r = bytes_eq(a.as_bytes(), b.as_bytes());
    proof {
        lemma_encode_utf8_injective(a@, b@);
    }
    r
}

/// Whether text `a` starts with text `p`.
pub fn str_starts_with(a: &str, p: &str) -> (yes: bool)
    ensures
        yes == starts_with(a@, p@),
{
    has_prefix(a.as_bytes(), p.as_bytes())
}

/// The position of the first byte `c` at or after `from`, or the length when there is none.
pub open spec fn find_from(b: Seq<u8>, c: u8, from: int) -> int
    decreases b.len() - from,
{
    if from >= b.len() {
        b.len() as int
    } else if b[from] == c {
        from
    } else {
        find_from(b, c, from + 1)
    }
}

/// The second space-separated word of `b`: the bytes between its first space and the
/// next space (or the end). `None` when `b` holds no space. This is the second item of
/// `splitn(3, ' ')`.
pub open spec fn second_word(b: Seq<u8>) -> Option<Seq<u8>> {
    let i = find_from(b, 32u8, 0);
    if i >= b.len() {
        None
    } else {
        Some(b.subrange(i + 1, find_from(b, 32u8, i + 1)))
    }
}

/// The first byte `c` at or after `from`, or the length.
fn find_byte(b: &[u8], c: u8, from: usize) -> (pos: usize)
    requires
        from <= b@.len(),
    ensures
        pos == find_from(b@, c, from as int),
        from <= pos <= b@.len(),
{
    let mut i = from;
    while i < b.len()
        invariant
            from <= i <= b@.len(),
            find_from(b@, c, from as int) == find_from(b@, c, i as int),
        decreases b@.len() - i,
    {
        if b[i] == c {
            return i;
        }
        i = i + 1;
    }
    i
}

/// `find_from` stays within `from..=len`.
proof fn lemma_find_from_range(b: Seq<u8>, c: u8, from: int)
    requires
        0 <= from <= b.len(),
    ensures
        from <= find_from(b, c, from) <= b.len(),
    decreases b.len() - from,
{
    if from < b.len() && b[from] != c {
        lemma_find_from_range(b, c, from + 1);
    }
}

/// The bytes of the second space-separated word of `b`, if `b` holds a space.
pub fn second_word_of(b: &[u8]) -> (w: Option<Vec<u8>>)
    ensures
        match second_word(b@) {
            Some(s) => w matches Some(v) && v@ == s,
            None => w is None,
        },
{
    let i = find_byte(b, 32u8, 0);
    if i >= b.len() {
        return None;
    }
    let j = find_byte(b, 32u8, i + 1);
    let mut v: Vec<u8> = Vec::new();
    append_range(&mut v, b, i + 1, j);
    assert(v@ =~= b@.subrange(i + 1, j as int));
    Some(v)
}

/// Whether every byte is an ASCII digit.
pub open spec fn all_digits(d: Seq<u8>) -> bool {
    forall|i: int| 0 <= i < d.len() ==> 48 <= #[trigger] d[i] <= 57
}

/// The number that ASCII digits spell in decimal.
pub open spec fn digits_value(d: Seq<u8>) -> nat
    decreases d.len(),
{
    if d.len() == 0 {
        0
    } else {
        digits_value(d.drop_last()) * 10 + (d.last() - 48) as nat
    }
}

/// The digits of a number text: all after an optional leading `+`.
pub open spec fn unsigned_digits(w: Seq<u8>) -> Seq<u8> {
    if w.len() > 0 && w[0] == 43u8 {
        w.skip(1)
    } else {
        w
    }
}

/// The 16-bit number that text `w` spells as `str::parse::<u16>` reads it: an optional
/// `+`, then one or more decimal digits and nothing else, worth less than 65536.
pub open spec fn parse_u16(w: Seq<u8>) -> Option<u16> {
    let d = unsigned_digits(w);
    if d.len() > 0 && all_digits(d) && digits_value(d) < 65536 {
        Some(digits_value(d) as u16)
    } else {
        None
    }
}

/// A number's digits are worth at least those of any prefix of them.
proof fn lemma_digits_value_prefix(d: Seq<u8>, i: int)
    requires
        0 <= i <= d.len(),
        all_digits(d),
    ensures
        digits_value(d.take(i)) <= digits_value(d),
    decreases d.len(),
{
    if i < d.len() {
        let dl = d.drop_last();
        assert(all_digits(dl)) by {
            assert forall|k: int| 0 <= k < dl.len() implies 48 <= #[trigger] dl[k] <= 57 by {
                assert(dl[k] == d[k]);
            }
        }
        lemma_digits_value_prefix(dl, i);
        assert(dl.take(i) =~= d.take(i));
    } else {
        assert(d.take(i) =~= d);
    }
}

/// Reads a 16-bit number from text, as `str::parse::<u16>` does.
pub fn parse_u16_bytes(w: &[u8]) -> (r: Option<u16>)
    ensures
        r == parse_u16(w@),
{
    let start: usize = if w.len() > 0 && w[0] == 43u8 { 1 } else { 0 };
    let ghost d = unsigned_digits(w@);
    assert(d =~= w@.skip(start as int));
    if start >= w.len() {
        return None;
    }
    let mut acc: u32 = 0;
    let mut i: usize = start;
    while i < w.len()
        invariant
            start <= i <= w@.len(),
            d == w@.skip(start as int),
            d == unsigned_digits(w@),
            d.len() > 0,
            all_digits(d.take(i - start)),
            acc == digits_value(d.take(i - start)),
            acc < 65536,
        decreases w@.len() - i,
    {
        let c = w[i];
        let ghost k = i - start;
        assert(d.take(k + 1).drop_last() =~= d.take(k));
        assert(d[k] == c);
        if c < 48 || c > 57 {
            assert(!all_digits(d)) by {
                assert(d[k] == c);
            }
            return None;
        }
        let next: u32 = acc * 10 + (c - 48) as u32;
        assert(all_digits(d.take(k + 1))) by {
            assert forall|m: int| 0 <= m < k + 1 implies 48 <= #[trigger] d.take(k + 1)[m] <= 57 by {
                if m < k {
                    assert(d.take(k + 1)[m] == d.take(k)[m]);
                }
            }
        }
        if next >= 65536 {
            proof {
                if all_digits(d) {
                    lemma_digits_value_prefix(d, k + 1);
                }
                assert(digits_value(d.take(k + 1)) == next);
            }
            return None;
        }
        acc = next;
        i = i + 1;
    }
    assert(d.take(d.len() as int) =~= d);
    Some(acc as u16)
}

/// The decimal digits of `n` (no sign, no leading zeros; `0` for zero), as ASCII bytes.
pub open spec fn decimal(n: nat) -> Seq<u8>
    decreases n,
{
    if n < 10 {
        seq![(48 + n) as u8]
    } else {
        decimal(n / 10) + seq![(48 + n % 10) as u8]
    }
}

/// A number written in decimal, as `to_string` writes it.
pub fn decimal_bytes(n: u64) -> (out: Vec<u8>)
    ensures
        out@ == decimal(n as nat),
        out@.len() <= 20,
    decreases n,
{
    if n < 10 {
        let mut v: Vec<u8> = Vec::new();
        v.push((48 + n) as u8);
        v
    } else {
        let mut v = decimal_bytes(n / 10);
        v.push((48 + n % 10) as u8);
        proof {
            lemma_decimal_len(n as nat);
        }
        v
    }
}

/// Ten to the `k`.
pub open spec fn pow10(k: nat) -> nat
    decreases k,
{
    if k == 0 {
        1
    } else {
        10 * pow10((k - 1) as nat)
    }
}

/// A number below `10^k` (with `k >= 1`) has at most `k` decimal digits.
proof fn lemma_decimal_len_pow(n: nat, k: nat)
    requires
        k >= 1,
        n < pow10(k),
    ensures
        decimal(n).len() <= k,
    decreases k,
{
    if n >= 10 {
        let p = pow10((k - 1) as nat);
        assert(n / 10 < p) by (nonlinear_arith)
            requires
                n < 10 * p,
        ;
        if k == 1 {
            assert(pow10(0) == 1);
        } else {
            lemma_decimal_len_pow(n / 10, (k - 1) as nat);
        }
    }
}

/// A 64-bit number has at most 20 decimal digits.
proof fn lemma_decimal_len(n: nat)
    requires
        n <= u64::MAX,
    ensures
        decimal(n).len() <= 20,
{
    assert(pow10(20) == 100000000000000000000) by {
        reveal_with_fuel(pow10, 21);
    }
    lemma_decimal_len_pow(n, 20);
}

/// `prefix`, then `middle`, then `suffix`, as bytes.
pub fn concat_text(prefix: &str, middle: &Vec<u8>, suffix: &str) -> (out: Vec<u8>)
    ensures
        out@ == encode_utf8(prefix@) + middle@ + encode_utf8(suffix@),
{
    let mut out = prefix.as_bytes_vec();
    append_range(&mut out, middle.as_slice(), 0, middle.len());
    let s = suffix.as_bytes();
    append_range(&mut out, s, 0, s.len());
    assert(middle@.subrange(0, middle@.len() as int) =~= middle@);
    assert(s@.subrange(0, s@.len() as int) =~= s@);
    out
}

/// The second word of a UTF-8 text is UTF-8 text too (words are cut at spaces, which
/// are whole characters).
pub proof fn lemma_second_word_utf8(b: Seq<u8>)
    requires
        valid_utf8(b),
    ensures
        second_word(b) matches Some(w) ==> valid_utf8(w),
{
    let i = find_from(b, 32u8, 0);
    lemma_find_from_range(b, 32u8, 0);
    if i < b.len() {
        lemma_find_from_hit(b, 32u8, 0);
        is_char_boundary_iff_not_is_continuation_byte(b, i);
        valid_utf8_split(b, i);
        let rest = b.subrange(i, b.len() as int);
        assert(rest[0] == 32u8);
        reveal_with_fuel(valid_utf8, 2);
        let after = pop_first_scalar(rest);
        assert(after =~= b.subrange(i + 1, b.len() as int));
        let j = find_from(b, 32u8, i + 1);
        lemma_find_from_range(b, 32u8, i + 1);
        let jj = j - (i + 1);
        if j < b.len() {
            lemma_find_from_hit(b, 32u8, i + 1);
            assert(after[jj] == 32u8);
            is_char_boundary_iff_not_is_continuation_byte(after, jj);
            valid_utf8_split(after, jj);
        } else {
            is_char_boundary_start_end_of_seq(after);
            valid_utf8_split(after, jj);
        }
        assert(after.subrange(0, jj) =~= b.subrange(i + 1, j));
    }
}

/// When `find_from` stops before the end, it stops at the byte looked for.
proof fn lemma_find_from_hit(b: Seq<u8>, c: u8, from: int)
    requires
        0 <= from <= b.len(),
        find_from(b, c, from) < b.len(),
    ensures
        b[find_from(b, c, from)] == c,
    decreases b.len() - from,
{
    if from < b.len() && b[from] != c {
        lemma_find_from_hit(b, c, from + 1);
    }
}

} // verus!
