//! Byte-level text utilities.
//!
//! The device speaks an ASCII line protocol, so all scanning and parsing is
//! done on raw bytes; decoding to `String` happens only at the edge, when a
//! result is handed back to the caller.

use vstd::prelude::*;

verus! {

/// The newline byte that delimits lines of device output.
pub const NEWLINE: u8 = 10;

/// Whether `b` is an ASCII whitespace byte, the ones `str::trim` removes from
/// ASCII text: space, tab, line feed, vertical tab, form feed, carriage return.
pub open spec fn is_space(b: u8) -> bool {
    b == 32 || b == 9 || b == 10 || b == 11 || b == 12 || b == 13
}

/// `s` without its leading whitespace bytes.
pub open spec fn trim_front(s: Seq<u8>) -> Seq<u8>
    decreases s.len(),
{
    if s.len() > 0 && is_space(s[0]) {
        trim_front(s.drop_first())
    } else {
        s
    }
}

/// `s` without its trailing whitespace bytes.
pub open spec fn trim_back(s: Seq<u8>) -> Seq<u8>
    decreases s.len(),
{
    if s.len() > 0 && is_space(s.last()) {
        trim_back(s.drop_last())
    } else {
        s
    }
}

/// `s` without whitespace at either end, as `str::trim` leaves ASCII text.
pub open spec fn trimmed(s: Seq<u8>) -> Seq<u8> {
    trim_back(trim_front(s))
}

proof fn lemma_trim_front_at(s: Seq<u8>, k: int)
    requires
        0 <= k <= s.len(),
        forall|i: int| 0 <= i < k ==> is_space(s[i]),
        k == s.len() || !is_space(s[k]),
    ensures
        trim_front(s) == s.subrange(k, s.len() as int),
    decreases k,
{
    if k == 0 {
        assert(s.subrange(0, s.len() as int) =~= s);
    } else {
        lemma_trim_front_at(s.drop_first(), k - 1);
        assert(s.drop_first().subrange(k - 1, s.drop_first().len() as int) =~= s.subrange(
            k,
            s.len() as int,
        ));
    }
}

proof fn lemma_trim_back_at(s: Seq<u8>, k: int)
    requires
        0 <= k <= s.len(),
        forall|i: int| k <= i < s.len() ==> is_space(s[i]),
        k == 0 || !is_space(s[k - 1]),
    ensures
        trim_back(s) == s.subrange(0, k),
    decreases s.len() - k,
{
    if k == s.len() {
        assert(s.subrange(0, k) =~= s);
    } else {
        lemma_trim_back_at(s.drop_last(), k);
        assert(s.drop_last().subrange(0, k) =~= s.subrange(0, k));
    }
}

fn is_space_byte(b: u8) -> (r: bool)
    ensures
        r == is_space(b),
{
    b == 32 || b == 9 || b == 10 || b == 11 || b == 12 || b == 13
}

/// `str::trim` on raw bytes: `s` without whitespace at either end.
pub fn trim_bytes(s: &[u8]) -> (r: Vec<u8>)
    ensures
        r@ == trimmed(s@),
{
    let n = s.len();
    let mut lo: usize = 0;
    while lo < n && is_space_byte(s[lo])
        invariant
            0 <= lo <= n,
            n == s@.len(),
            forall|i: int| 0 <= i < lo ==> is_space(s@[i]),
        decreases n - lo,
    {
        lo = lo + 1;
    }
    let mut hi: usize = n;
    while hi > lo && is_space_byte(s[hi - 1])
        invariant
            lo <= hi <= n,
            n == s@.len(),
            forall|i: int| hi <= i < n ==> is_space(s@[i]),
        decreases hi,
    {
        hi = hi - 1;
    }
    let mut r: Vec<u8> = Vec::new();
    let mut i: usize = lo;
    while i < hi
        invariant
            lo <= i <= hi <= n,
            n == s@.len(),
            r@ == s@.subrange(lo as int, i as int),
        decreases hi - i,
    {
        proof {
            assert(s@.subrange(lo as int, i + 1 as int) =~= s@.subrange(lo as int, i as int).push(
                s@[i as int],
            ));
        }
        r.push(s[i]);
        i = i + 1;
    }
    proof {
        lemma_trim_front_at(s@, lo as int);
        let mid = s@.subrange(lo as int, n as int);
        assert(forall|i: int| hi - lo <= i < mid.len() ==> is_space(mid[i]));
        lemma_trim_back_at(mid, hi - lo);
        assert(mid.subrange(0, hi - lo) =~= s@.subrange(lo as int, hi as int));
    }
    r
}

/// The split of `s` at newline bytes.  There is always at least one segment;
/// text ending in a newline yields a final empty segment.  Every segment is
/// trimmed before it is matched against a protocol token, so the difference
/// from `str::lines` (which drops that final empty segment and trailing
/// carriage returns) cannot be observed.
pub open spec fn lines_of(s: Seq<u8>) -> Seq<Seq<u8>>
    decreases s.len(),
{
    if s.len() == 0 {
        seq![Seq::<u8>::empty()]
    } else if s[0] == NEWLINE {
        seq![Seq::<u8>::empty()] + lines_of(s.drop_first())
    } else {
        let rest = lines_of(s.drop_first());
        seq![seq![s[0]] + rest[0]] + rest.drop_first()
    }
}

pub proof fn lemma_lines_of_nonempty(s: Seq<u8>)
    ensures
        lines_of(s).len() >= 1,
    decreases s.len(),
{
    if s.len() > 0 {
        lemma_lines_of_nonempty(s.drop_first());
    }
}

/// Appending one byte either starts a new empty line (newline byte) or extends
/// the last line.
proof fn lemma_lines_push(s: Seq<u8>, b: u8)
    ensures
        b == NEWLINE ==> lines_of(s.push(b)) == lines_of(s).push(Seq::<u8>::empty()),
        b != NEWLINE ==> lines_of(s.push(b)) == lines_of(s).update(
            lines_of(s).len() - 1,
            lines_of(s).last().push(b),
        ),
    decreases s.len(),
{
    lemma_lines_of_nonempty(s);
    if s.len() == 0 {
        assert(s.push(b)[0] == b);
        assert(lines_of(Seq::<u8>::empty()) == seq![Seq::<u8>::empty()]);
        if b == NEWLINE {
            assert(s.push(b).drop_first() =~= Seq::<u8>::empty());
            assert(lines_of(s.push(b)) =~~= lines_of(s).push(Seq::<u8>::empty()));
        } else {
            assert(s.push(b).drop_first() =~= Seq::<u8>::empty());
            assert(seq![s.push(b)[0]] + lines_of(Seq::<u8>::empty())[0] =~= seq![b]);
            assert(lines_of(s.push(b)) =~~= lines_of(s).update(
                lines_of(s).len() - 1,
                lines_of(s).last().push(b),
            ));
        }
    } else {
        lemma_lines_push(s.drop_first(), b);
        lemma_lines_of_nonempty(s.drop_first());
        assert(s.push(b).drop_first() =~= s.drop_first().push(b));
        let lrest = lines_of(s.drop_first());
        if s[0] == NEWLINE {
            if b == NEWLINE {
                assert(lines_of(s.push(b)) =~~= lines_of(s).push(Seq::<u8>::empty()));
            } else {
                assert(lines_of(s.push(b)) =~~= lines_of(s).update(
                    lines_of(s).len() - 1,
                    lines_of(s).last().push(b),
                ));
            }
        } else {
            if b == NEWLINE {
                assert(lrest.push(Seq::<u8>::empty())[0] == lrest[0]);
                assert(lines_of(s.push(b)) =~~= lines_of(s).push(Seq::<u8>::empty()));
            } else {
                let upd = lrest.update(lrest.len() - 1, lrest.last().push(b));
                if lrest.len() == 1 {
                    assert(upd[0] == lrest.last().push(b));
                    assert(seq![s[0]] + lrest.last().push(b) =~= (seq![s[0]] + lrest[0]).push(b));
                    assert(lines_of(s.push(b)) =~~= lines_of(s).update(
                        lines_of(s).len() - 1,
                        lines_of(s).last().push(b),
                    ));
                } else {
                    assert(upd[0] == lrest[0]);
                    assert(lines_of(s.push(b)) =~~= lines_of(s).update(
                        lines_of(s).len() - 1,
                        lines_of(s).last().push(b),
                    ));
                }
            }
        }
    }
}

/// The views of a sequence of byte vectors.
pub open spec fn seq_views(v: Seq<Vec<u8>>) -> Seq<Seq<u8>> {
    v.map_values(|x: Vec<u8>| x@)
}

/// Split a byte buffer into its lines at newline bytes.
pub fn split_lines(s: &[u8]) -> (r: Vec<Vec<u8>>)
    ensures
        seq_views(r@) == lines_of(s@),
{
    let mut out: Vec<Vec<u8>> = Vec::new();
    let mut cur: Vec<u8> = Vec::new();
    let mut i: usize = 0;
    proof {
        assert(s@.take(0) =~= Seq::<u8>::empty());
        assert(seq_views(out@).push(cur@) =~~= lines_of(s@.take(0)));
    }
    while i < s.len()
        invariant
            0 <= i <= s@.len(),
            seq_views(out@).push(cur@) == lines_of(s@.take(i as int)),
        decreases s@.len() - i,
    {
        proof {
            lemma_lines_push(s@.take(i as int), s@[i as int]);
            assert(s@.take(i + 1 as int) =~= s@.take(i as int).push(s@[i as int]));
        }
        let b = s[i];
        if b == NEWLINE {
            proof {
                assert(seq_views(out@.push(cur)) =~~= seq_views(out@).push(cur@));
            }
            out.push(cur);
            cur = Vec::new();
            proof {
                assert(seq_views(out@).push(cur@) =~~= lines_of(s@.take(i + 1 as int)));
            }
        } else {
            cur.push(b);
            proof {
                let prev = lines_of(s@.take(i as int));
                assert(prev.update(prev.len() - 1, prev.last().push(b)) =~~= seq_views(
                    out@,
                ).push(cur@));
            }
        }
        i = i + 1;
    }
    proof {
        assert(s@.take(s@.len() as int) =~= s@);
        assert(seq_views(out@.push(cur)) =~~= seq_views(out@).push(cur@));
    }
    out.push(cur);
    out
}

/// Whether `n` occurs as a contiguous run inside `h`, as `str::contains` asks
/// of ASCII text.
pub open spec fn contains_sub(h: Seq<u8>, n: Seq<u8>) -> bool {
    exists|i: int| 0 <= i <= h.len() - n.len() && #[trigger] h.subrange(i, i + n.len()) == n
}

/// Substring search: whether `n` occurs anywhere inside `h`.
pub fn find_sub(h: &[u8], n: &[u8]) -> (r: bool)
    ensures
        r == contains_sub(h@, n@),
{
    if n.len() > h.len() {
        return false;
    }
    if n.len() == 0 {
        proof {
            assert(h@.subrange(0, 0 + n@.len() as int) =~= n@);
            assert(contains_sub(h@, n@));
        }
        return true;
    }
    let hn = h.len();
    let nn = n.len();
    let end = hn - nn;
    let mut i: usize = 0;
    while i <= end
        invariant
            1 <= nn,
            nn == n@.len(),
            hn == h@.len(),
            end == hn - nn,
            0 <= i <= end + 1,
            forall|k: int| 0 <= k < i ==> #[trigger] h@.subrange(k, k + n@.len()) != n@,
        decreases end + 1 - i,
    {
        let mut j: usize = 0;
        let mut ok: bool = true;
        while j < nn
            invariant
                i <= end,
                end + nn == hn,
                nn == n@.len(),
                hn == h@.len(),
                0 <= j <= nn,
                ok == (forall|t: int| 0 <= t < j ==> h@[i + t] == n@[t]),
            decreases nn - j,
        {
            if h[i + j] != n[j] {
                ok = false;
            }
            j = j + 1;
        }
        proof {
            assert(i + n@.len() <= h@.len());
        }
        if ok {
            proof {
                assert(h@.subrange(i as int, i + n@.len()) =~= n@);
            }
            return true;
        }
        proof {
            let t = choose|t: int| 0 <= t < n@.len() && h@[i + t] != n@[t];
            assert(h@.subrange(i as int, i + n@.len())[t] != n@[t]);
        }
        i = i + 1;
    }
    false
}

/// Whether `b` is an ASCII decimal digit.
pub open spec fn is_digit(b: u8) -> bool {
    48 <= b <= 57
}

/// Whether every byte of `s` is a decimal digit.
pub open spec fn all_digits(s: Seq<u8>) -> bool {
    forall|i: int| 0 <= i < s.len() ==> is_digit(s[i])
}

/// The value of a run of decimal digits.
pub open spec fn digits_val(s: Seq<u8>) -> nat
    decreases s.len(),
{
    if s.len() == 0 {
        0
    } else {
        digits_val(s.drop_last()) * 10 + (s.last() - 48) as nat
    }
}

/// What `str::parse::<u16>` yields on trimmed ASCII text: an optional leading
/// plus sign, then at least one digit, with a value that fits in sixteen bits.
pub open spec fn parse_u16_spec(s: Seq<u8>) -> Option<u16> {
    let t = if s.len() > 0 && s[0] == 43 {
        s.drop_first()
    } else {
        s
    };
    if t.len() > 0 && all_digits(t) && digits_val(t) <= 65535 {
        Some(digits_val(t) as u16)
    } else {
        None
    }
}

/// Parse a decimal `u16` from already-trimmed bytes, as `str::parse` does.
pub fn parse_u16(s: &[u8]) -> (r: Option<u16>)
    ensures
        r == parse_u16_spec(s@),
{
    let start: usize = if s.len() > 0 && s[0] == 43 {
        1
    } else {
        0
    };
    let ghost t = if s@.len() > 0 && s@[0] == 43 {
        s@.drop_first()
    } else {
        s@
    };
    proof {
        assert(t =~= s@.subrange(start as int, s@.len() as int));
    }
    if start == s.len() {
        return None;
    }
    let mut acc: u32 = 0;
    let mut i: usize = start;
    while i < s.len()
        invariant
            start <= i <= s@.len(),
            t == (if s@.len() > 0 && s@[0] == 43 {
                s@.drop_first()
            } else {
                s@
            }),
            t == s@.subrange(start as int, s@.len() as int),
            all_digits(t.subrange(0, i - start)),
            acc <= 655369,
            digits_val(t.subrange(0, i - start)) <= 65535 ==> acc == digits_val(
                t.subrange(0, i - start),
            ),
            digits_val(t.subrange(0, i - start)) > 65535 ==> acc > 65535,
        decreases s@.len() - i,
    {
        let b = s[i];
        if b < 48 || b > 57 {
            proof {
                assert(b == s@[i as int]);
                assert(t[i - start] == s@[i as int]);
                assert(!is_digit(t[i - start]));
                assert(!all_digits(t));
            }
            return None;
        }
        proof {
            let pre = t.subrange(0, i - start);
            let nxt = t.subrange(0, i + 1 - start);
            assert(nxt.drop_last() =~= pre);
            assert(nxt.last() == s@[i as int]);
        }
        if acc > 65535 {
            acc = 65536;
        }
        acc = acc * 10 + (b - 48) as u32;
        i = i + 1;
    }
    proof {
        assert(t.subrange(0, s@.len() - start) =~= t);
    }
    if acc > 65535 {
        return None;
    }
    Some(acc as u16)
}

/// Copy the bytes of `s` between `from` and `to` into a fresh vector.
pub fn copy_range(s: &[u8], from: usize, to: usize) -> (r: Vec<u8>)
    requires
        from <= to <= s@.len(),
    ensures
        r@ == s@.subrange(from as int, to as int),
{
    let mut r: Vec<u8> = Vec::new();
    let mut i: usize = from;
    while i < to
        invariant
            from <= i <= to <= s@.len(),
            r@ == s@.subrange(from as int, i as int),
        decreases to - i,
    {
        proof {
            assert(s@.subrange(from as int, i + 1 as int) =~= s@.subrange(from as int, i as int).push(
                s@[i as int],
            ));
        }
        r.push(s[i]);
        i = i + 1;
    }
    r
}

/// The most recent `cap` bytes of `s`: all of it while it fits, else only the
/// newest suffix.
pub open spec fn capped(s: Seq<u8>, cap: nat) -> Seq<u8> {
    if s.len() <= cap {
        s
    } else {
        s.subrange(s.len() - cap, s.len() as int)
    }
}

/// Append `data` to `buf`, then drop the oldest bytes so that at most `cap`
/// bytes — the most recently received ones — are retained.
pub fn append_capped(buf: &mut Vec<u8>, data: &[u8], cap: usize)
    ensures
        final(buf)@ == capped(old(buf)@ + data@, cap as nat),
{
    let mut i: usize = 0;
    while i < data.len()
        invariant
            0 <= i <= data@.len(),
            buf@ == old(buf)@ + data@.subrange(0, i as int),
        decreases data@.len() - i,
    {
        proof {
            assert(old(buf)@ + data@.subrange(0, i + 1 as int) =~= (old(buf)@ + data@.subrange(
                0,
                i as int,
            )).push(data@[i as int]));
        }
        buf.push(data[i]);
        i = i + 1;
    }
    proof {
        assert(old(buf)@ + data@.subrange(0, data@.len() as int) =~= old(buf)@ + data@);
    }
    if buf.len() > cap {
        let from = buf.len() - cap;
        let mut kept: Vec<u8> = Vec::new();
        let mut j: usize = from;
        while j < buf.len()
            invariant
                from <= j <= buf@.len(),
                from == buf@.len() - cap,
                kept@ == buf@.subrange(from as int, j as int),
        decreases buf@.len() - j,
        {
            proof {
                assert(buf@.subrange(from as int, j + 1 as int) =~= buf@.subrange(
                    from as int,
                    j as int,
                ).push(buf@[j as int]));
            }
            kept.push(buf[j]);
            j = j + 1;
        }
        *buf = kept;
    }
}

/// The capped buffer never exceeds its cap, and what it retains is exactly
/// the suffix of the most recently received bytes.
pub proof fn lemma_capped_is_recent_suffix(s: Seq<u8>, cap: nat)
    ensures
        capped(s, cap).len() <= cap,
        capped(s, cap) == s.subrange(s.len() - capped(s, cap).len(), s.len() as int),
{
    if s.len() <= cap {
        assert(s.subrange(0, s.len() as int) =~= s);
    }
}

/// What `String::from_utf8_lossy` yields: a function of the bytes alone.
pub uninterp spec fn lossy_text(bytes: Seq<u8>) -> Seq<char>;

/// Relies on `String::from_utf8_lossy`: decodes bytes as UTF-8, replacing
/// invalid sequences; the result depends on the bytes alone, no bytes means an
/// empty string, and ASCII bytes pass through one to one.
#[verifier::external_body]
pub fn decode_lossy(bytes: &[u8]) -> (r: String)
    ensures
        r@ == lossy_text(bytes@),
        bytes@.len() == 0 ==> r@.len() == 0,
        (forall|i: int| 0 <= i < bytes@.len() ==> bytes@[i] < 128) ==> r@ == bytes@.map_values(
            |b: u8| b as char,
        ),
{
    String::from_utf8_lossy(bytes).into_owned()
}

} // verus!
