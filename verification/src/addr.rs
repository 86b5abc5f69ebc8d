//! Dial and bind address parsing.
//!
//! Addresses are IPv6: the standard `[ipv6]:port` form, a bare IPv6
//! literal (which takes the default port), a bare port, or
//! `localhost:port` — the last two resolve to the IPv6 loopback.
//! IPv6 literals are colon-separated groups of one to four hex digits,
//! with at most one `::` standing for the missing zero groups.

use vstd::prelude::*;

use crate::error::NetworkError;
use crate::strutil::string_chars;

verus! {

/// The port used when an address names none.
pub const DEFAULT_PORT: u16 = 8080;

/// A parsed socket address: eight 16-bit IPv6 segments and a port.
#[derive(Debug, Clone)]
pub struct ParsedAddr {
    /// The eight address segments, most significant first.
    pub segments: Vec<u16>,
    pub port: u16,
}

/// True for a decimal digit.
pub open spec fn is_dec_digit(c: char) -> bool {
    '0' <= c <= '9'
}

/// The value of a decimal digit.
pub open spec fn dec_digit_val(c: char) -> int {
    c as int - '0' as int
}

/// The value of a decimal numeral.
pub open spec fn dec_val(s: Seq<char>) -> int
    decreases s.len(),
{
    if s.len() == 0 {
        0
    } else {
        dec_val(s.drop_last()) * 10 + dec_digit_val(s.last())
    }
}

/// True when the text is a port: decimal digits whose value fits 16
/// bits.
pub open spec fn is_port_text(s: Seq<char>) -> bool {
    s.len() >= 1 && (forall|i: int| 0 <= i < s.len() ==> is_dec_digit(#[trigger] s[i])) && dec_val(
        s,
    ) <= 0xffff
}

/// The port a port text names.
pub open spec fn port_val(s: Seq<char>) -> u16 {
    dec_val(s) as u16
}

/// The value of a decimal numeral never goes down as it extends, and is
/// never negative.
proof fn lemma_dec_val_monotonic(s: Seq<char>, k: int)
    requires
        0 <= k <= s.len(),
        forall|i: int| 0 <= i < s.len() ==> is_dec_digit(#[trigger] s[i]),
    ensures
        0 <= dec_val(s.take(k)) <= dec_val(s),
    decreases s.len() - k,
{
    if k == s.len() {
        assert(s.take(k) =~= s);
        lemma_dec_val_nonneg(s);
    } else {
        lemma_dec_val_monotonic(s, k + 1);
        let t = s.take(k + 1);
        assert(t.drop_last() =~= s.take(k));
        assert(t.last() == s[k]);
        lemma_dec_val_nonneg(s.take(k));
    }
}

/// The value of a decimal numeral is never negative.
proof fn lemma_dec_val_nonneg(s: Seq<char>)
    requires
        forall|i: int| 0 <= i < s.len() ==> is_dec_digit(#[trigger] s[i]),
    ensures
        dec_val(s) >= 0,
    decreases s.len(),
{
    if s.len() > 0 {
        assert(forall|i: int|
            0 <= i < s.drop_last().len() ==> is_dec_digit(#[trigger] s.drop_last()[i]));
        lemma_dec_val_nonneg(s.drop_last());
    }
}

/// Parses a decimal port out of a character range.
///
/// Succeeds exactly when the range is a port text, and then yields its
/// value.
fn parse_port_chars(chars: &Vec<char>, start: usize, end: usize) -> (r: Option<u16>)
    requires
        start <= end <= chars@.len(),
    ensures
        r is Some <==> is_port_text(chars@.subrange(start as int, end as int)),
        r is Some ==> r->0 == port_val(chars@.subrange(start as int, end as int)),
{
    let ghost s = chars@.subrange(start as int, end as int);
    if start == end {
        return None;
    }
    let mut val: u32 = 0;
    let mut i: usize = start;
    while i < end
        invariant
            start <= i <= end <= chars@.len(),
            s == chars@.subrange(start as int, end as int),
            forall|j: int| 0 <= j < i - start ==> is_dec_digit(#[trigger] s[j]),
            val == dec_val(s.take(i - start)),
            val <= 0xffff,
        decreases end - i,
    {
        let c = chars[i];
        proof {
            assert(s[i - start] == chars@[i as int]);
        }
        if !('0' <= c && c <= '9') {
            proof {
                if is_port_text(s) {
                    assert(is_dec_digit(s[i - start]));
                }
            }
            return None;
        }
        let d: u32 = (c as u32) - ('0' as u32);
        proof {
            assert(s.take(i - start + 1).drop_last() =~= s.take(i - start));
            assert(s.take(i - start + 1).last() == s[i - start]);
            assert(d == dec_digit_val(s[i - start]));
        }
        val = val * 10 + d;
        i = i + 1;
        if val > 0xffff {
            proof {
                if is_port_text(s) {
                    lemma_dec_val_monotonic(s, i - start);
                }
            }
            return None;
        }
    }
    proof {
        assert(s.take(end - start) =~= s);
        lemma_dec_val_nonneg(s);
    }
    Some(val as u16)
}

/// True for a hex digit.
pub open spec fn is_hex_digit(c: char) -> bool {
    is_dec_digit(c) || ('a' <= c <= 'f') || ('A' <= c <= 'F')
}

/// The value of a hex digit.
pub open spec fn hex_digit_val(c: char) -> int {
    if is_dec_digit(c) {
        c as int - '0' as int
    } else if 'a' <= c <= 'f' {
        c as int - 'a' as int + 10
    } else {
        c as int - 'A' as int + 10
    }
}

/// The value of a hex numeral.
pub open spec fn hex_val(s: Seq<char>) -> int
    decreases s.len(),
{
    if s.len() == 0 {
        0
    } else {
        hex_val(s.drop_last()) * 16 + hex_digit_val(s.last())
    }
}

/// True when the text is one address group: one to four hex digits.
pub open spec fn is_group(s: Seq<char>) -> bool {
    1 <= s.len() <= 4 && (forall|i: int| 0 <= i < s.len() ==> is_hex_digit(#[trigger] s[i]))
}

/// Sixteen to the given power.
pub open spec fn pow16(n: nat) -> int
    decreases n,
{
    if n == 0 {
        1
    } else {
        16 * pow16((n - 1) as nat)
    }
}

/// The small powers of sixteen, written out.
proof fn lemma_pow16_small()
    ensures
        pow16(0nat) == 1,
        pow16(1nat) == 16,
        pow16(2nat) == 256,
        pow16(3nat) == 4096,
        pow16(4nat) == 65536,
{
    assert(pow16(0nat) == 1);
    assert(pow16(1nat) == 16 * pow16(0nat));
    assert(pow16(2nat) == 16 * pow16(1nat));
    assert(pow16(3nat) == 16 * pow16(2nat));
    assert(pow16(4nat) == 16 * pow16(3nat));
}

/// A hex numeral's value is bounded by sixteen to its length.
proof fn lemma_hex_val_bound(s: Seq<char>)
    requires
        forall|i: int| 0 <= i < s.len() ==> is_hex_digit(#[trigger] s[i]),
    ensures
        0 <= hex_val(s) < pow16(s.len()),
    decreases s.len(),
{
    if s.len() > 0 {
        assert(forall|i: int|
            0 <= i < s.drop_last().len() ==> is_hex_digit(#[trigger] s.drop_last()[i]));
        lemma_hex_val_bound(s.drop_last());
    }
}

/// Parses one address group out of a character range.
///
/// Succeeds exactly when the range is a group, and then yields its
/// value.
fn parse_hex_group(chars: &Vec<char>, start: usize, end: usize) -> (r: Option<u16>)
    requires
        start <= end <= chars@.len(),
    ensures
        r is Some <==> is_group(chars@.subrange(start as int, end as int)),
        r is Some ==> r->0 == hex_val(chars@.subrange(start as int, end as int)) as u16,
{
    let ghost s = chars@.subrange(start as int, end as int);
    if end - start < 1 || end - start > 4 {
        return None;
    }
    let mut val: u32 = 0;
    let mut i: usize = start;
    while i < end
        invariant
            start <= i <= end <= chars@.len(),
            end - start <= 4,
            s == chars@.subrange(start as int, end as int),
            forall|j: int| 0 <= j < i - start ==> is_hex_digit(#[trigger] s[j]),
            val == hex_val(s.take(i - start)),
            val < pow16((i - start) as nat),
        decreases end - i,
    {
        let c = chars[i];
        proof {
            assert(s[i - start] == chars@[i as int]);
        }
        let d: u32 = if '0' <= c && c <= '9' {
            (c as u32) - ('0' as u32)
        } else if 'a' <= c && c <= 'f' {
            (c as u32) - ('a' as u32) + 10
        } else if 'A' <= c && c <= 'F' {
            (c as u32) - ('A' as u32) + 10
        } else {
            proof {
                if is_group(s) {
                    assert(is_hex_digit(s[i - start]));
                }
            }
            return None;
        };
        proof {
            assert(s.take(i - start + 1).drop_last() =~= s.take(i - start));
            assert(s.take(i - start + 1).last() == s[i - start]);
            assert(d == hex_digit_val(s[i - start]));
            assert(pow16((i - start + 1) as nat) == 16 * pow16((i - start) as nat));
            lemma_pow16_small();
            assert(pow16((i - start) as nat) <= 4096) by {
                if i - start == 0 {
                } else if i - start == 1 {
                } else if i - start == 2 {
                } else {
                    assert(i - start == 3);
                }
            }
        }
        val = val * 16 + d;
        i = i + 1;
    }
    proof {
        assert(s.take(end - start) =~= s);
        lemma_hex_val_bound(s);
        lemma_pow16_small();
        assert(pow16(s.len()) <= 65536) by {
            if s.len() == 1 {
            } else if s.len() == 2 {
            } else if s.len() == 3 {
            } else {
                assert(s.len() == 4);
            }
        }
    }
    Some(val as u16)
}

/// The colon-joined text of a list of parts.
pub open spec fn join_colon(parts: Seq<Seq<char>>) -> Seq<char>
    decreases parts.len(),
{
    if parts.len() == 0 {
        Seq::empty()
    } else if parts.len() == 1 {
        parts[0]
    } else {
        join_colon(parts.drop_last()) + seq![':'] + parts.last()
    }
}

/// Joining a concatenation of two nonempty lists joins each and puts a
/// colon between.
proof fn lemma_join_append(a: Seq<Seq<char>>, b: Seq<Seq<char>>)
    requires
        a.len() > 0,
        b.len() > 0,
    ensures
        join_colon(a + b) == join_colon(a) + seq![':'] + join_colon(b),
    decreases b.len(),
{
    if b.len() == 1 {
        assert((a + b).drop_last() =~= a);
        assert((a + b).last() == b[0]);
        assert(join_colon(a + b) =~= join_colon(a) + seq![':'] + join_colon(b));
    } else {
        lemma_join_append(a, b.drop_last());
        assert((a + b).drop_last() =~= a + b.drop_last());
        assert((a + b).last() == b.last());
        assert(join_colon(a + b) =~= join_colon(a) + seq![':'] + join_colon(b));
    }
}

/// True when every part is an address group.
pub open spec fn all_groups(ps: Seq<Seq<char>>) -> bool {
    forall|i: int| 0 <= i < ps.len() ==> is_group(#[trigger] ps[i])
}

/// The group values of a list of parts.
pub open spec fn group_vals(ps: Seq<Seq<char>>) -> Seq<u16> {
    Seq::new(ps.len(), |i: int| hex_val(ps[i]) as u16)
}

/// A run of zero segments.
pub open spec fn zero_segs(n: nat) -> Seq<u16> {
    Seq::new(n, |i: int| 0u16)
}

/// True when the segments are what the text denotes as an IPv6 literal:
/// either eight colon-separated groups, or two shorter group lists
/// around one `::` with zero segments standing in the gap.
pub open spec fn ipv6_decomp(text: Seq<char>, segs: Seq<u16>) -> bool {
    ||| (exists|ps: Seq<Seq<char>>|
        all_groups(ps) && ps.len() == 8 && join_colon(ps) == text && segs == group_vals(ps))
    ||| (exists|l: Seq<Seq<char>>, r: Seq<Seq<char>>|
        #![trigger group_vals(l), group_vals(r)]
        all_groups(l) && all_groups(r) && l.len() + r.len() <= 7 && text == join_colon(l) + seq![
            ':',
            ':',
        ] + join_colon(r) && segs == group_vals(l) + zero_segs((8 - l.len() - r.len()) as nat)
            + group_vals(r))
}

/// The loopback address segments.
pub open spec fn loopback_segs() -> Seq<u16> {
    seq![0u16, 0u16, 0u16, 0u16, 0u16, 0u16, 0u16, 1u16]
}

/// True when no character of the part is the given one.
pub open spec fn no_char(s: Seq<char>, c: char) -> bool {
    forall|j: int| 0 <= j < s.len() ==> s[j] != c
}

/// True when no part contains a colon.
pub open spec fn colon_free(ps: Seq<Seq<char>>) -> bool {
    forall|i: int| 0 <= i < ps.len() ==> no_char(#[trigger] ps[i], ':')
}

/// Splits a character range on colons; every colon separates, so a
/// doubled colon yields an empty part. The parts are colon-free and
/// join back to the range.
fn split_parts(chars: &Vec<char>, start: usize, end: usize) -> (r: Vec<Vec<char>>)
    requires
        start <= end <= chars@.len(),
    ensures
        r.deep_view().len() >= 1,
        join_colon(r.deep_view()) == chars@.subrange(start as int, end as int),
        colon_free(r.deep_view()),
{
    let ghost s = chars@.subrange(start as int, end as int);
    let mut parts: Vec<Vec<char>> = Vec::new();
    let mut cur: Vec<char> = Vec::new();
    let mut i: usize = start;
    while i < end
        invariant
            start <= i <= end <= chars@.len(),
            s == chars@.subrange(start as int, end as int),
            consumed_text(parts.deep_view(), cur@) =~= s.take(i - start),
            colon_free(parts.deep_view()),
            no_char(cur@, ':'),
        decreases end - i,
    {
        let c = chars[i];
        proof {
            assert(s[i - start] == chars@[i as int]);
            assert(s.take(i - start + 1) =~= s.take(i - start).push(s[i - start]));
        }
        if c == ':' {
            let ghost pprev = parts.deep_view();
            let ghost cprev = cur@;
            parts.push(cur);
            cur = Vec::new();
            proof {
                assert(parts.deep_view() =~~= pprev.push(cprev));
                lemma_consumed_push(pprev, cprev);
                assert(consumed_text(parts.deep_view(), cur@) =~= s.take(i - start + 1));
                assert forall|k: int| 0 <= k < parts.deep_view().len() implies no_char(
                    #[trigger] parts.deep_view()[k],
                    ':',
                ) by {
                    if k < pprev.len() {
                        assert(parts.deep_view()[k] == pprev[k]);
                    } else {
                        assert(parts.deep_view()[k] == cprev);
                    }
                }
            }
        } else {
            cur.push(c);
            proof {
                assert(consumed_text(parts.deep_view(), cur@) =~= s.take(i - start + 1));
            }
        }
        i = i + 1;
    }
    let ghost pprev = parts.deep_view();
    let ghost cprev = cur@;
    parts.push(cur);
    proof {
        assert(parts.deep_view() =~~= pprev.push(cprev));
        lemma_consumed_push(pprev, cprev);
        assert(s.take(end - start) =~= s);
        assert(join_colon(parts.deep_view()) =~= s);
        assert forall|k: int| 0 <= k < parts.deep_view().len() implies no_char(
            #[trigger] parts.deep_view()[k],
            ':',
        ) by {
            if k < pprev.len() {
                assert(parts.deep_view()[k] == pprev[k]);
            } else {
                assert(parts.deep_view()[k] == cprev);
            }
        }
    }
    parts
}

/// The text consumed so far while splitting: the finished parts joined,
/// a colon, and the unfinished part.
pub open spec fn consumed_text(parts: Seq<Seq<char>>, cur: Seq<char>) -> Seq<char> {
    if parts.len() == 0 {
        cur
    } else {
        join_colon(parts) + seq![':'] + cur
    }
}

/// Finishing the unfinished part extends the consumed text by nothing:
/// the join of the extended list is the consumed text.
proof fn lemma_consumed_push(parts: Seq<Seq<char>>, cur: Seq<char>)
    ensures
        join_colon(parts.push(cur)) == consumed_text(parts, cur),
{
    if parts.len() == 0 {
        assert(join_colon(parts.push(cur)) =~= cur);
    } else {
        assert(parts.push(cur).drop_last() =~= parts);
        assert(parts.push(cur).last() == cur);
        assert(join_colon(parts.push(cur)) =~= join_colon(parts) + seq![':'] + cur);
    }
}

/// A group contains no colon: its characters are hex digits.
proof fn lemma_group_no_colon(s: Seq<char>)
    requires
        is_group(s),
    ensures
        no_char(s, ':'),
{
    assert forall|j: int| 0 <= j < s.len() implies s[j] != ':' by {
        assert(is_hex_digit(s[j]));
    }
}

/// The joined text of parts with a nonempty head begins with the head's
/// first character.
proof fn lemma_join_head(ps: Seq<Seq<char>>)
    requires
        ps.len() >= 1,
        ps[0].len() >= 1,
    ensures
        join_colon(ps).len() >= 1,
        join_colon(ps)[0] == ps[0][0],
    decreases ps.len(),
{
    if ps.len() == 1 {
    } else {
        assert(ps.drop_last()[0] == ps[0]);
        lemma_join_head(ps.drop_last());
    }
}

/// A character absent from every part and different from the colon is
/// absent from the joined text.
proof fn lemma_join_no_char(ps: Seq<Seq<char>>, c: char)
    requires
        c != ':',
        forall|i: int| 0 <= i < ps.len() ==> no_char(#[trigger] ps[i], c),
    ensures
        no_char(join_colon(ps), c),
    decreases ps.len(),
{
    if ps.len() <= 1 {
    } else {
        assert(forall|i: int|
            0 <= i < ps.drop_last().len() ==> no_char(#[trigger] ps.drop_last()[i], c)) by {
            assert(forall|i: int| 0 <= i < ps.drop_last().len() ==> ps.drop_last()[i] == ps[i]);
        }
        lemma_join_no_char(ps.drop_last(), c);
        let jd = join_colon(ps.drop_last());
        let last = ps.last();
        assert(join_colon(ps) == jd + seq![':'] + last);
        assert forall|k: int| 0 <= k < join_colon(ps).len() implies join_colon(ps)[k] != c by {
            if k < jd.len() {
                assert(join_colon(ps)[k] == jd[k]);
            } else if k == jd.len() {
                assert(join_colon(ps)[k] == ':');
            } else {
                assert(join_colon(ps)[k] == last[k - jd.len() - 1]);
            }
        }
    }
}

/// Two colon-free part lists with one joined text are the same list:
/// splitting on colons is unambiguous.
proof fn lemma_split_unique(a: Seq<Seq<char>>, b: Seq<Seq<char>>)
    requires
        a.len() >= 1,
        b.len() >= 1,
        colon_free(a),
        colon_free(b),
        join_colon(a) == join_colon(b),
    ensures
        a == b,
    decreases a.len(),
{
    if a.len() == 1 && b.len() == 1 {
        assert(a =~= b);
    } else if a.len() == 1 {
        let jd = join_colon(b.drop_last());
        assert(join_colon(b) == jd + seq![':'] + b.last());
        assert(join_colon(b)[jd.len() as int] == ':');
        assert(join_colon(a) == a[0]);
        assert(no_char(a[0], ':'));
        assert(false);
    } else if b.len() == 1 {
        let jd = join_colon(a.drop_last());
        assert(join_colon(a) == jd + seq![':'] + a.last());
        assert(join_colon(a)[jd.len() as int] == ':');
        assert(join_colon(b) == b[0]);
        assert(no_char(b[0], ':'));
        assert(false);
    } else {
        let ja = join_colon(a.drop_last());
        let jb = join_colon(b.drop_last());
        let al = a.last();
        let bl = b.last();
        assert(join_colon(a) == ja + seq![':'] + al);
        assert(join_colon(b) == jb + seq![':'] + bl);
        assert(no_char(al, ':'));
        assert(no_char(bl, ':'));
        if ja.len() < jb.len() {
            assert(join_colon(b)[jb.len() as int] == ':');
            assert(join_colon(a)[jb.len() as int] == al[jb.len() - ja.len() - 1]);
            assert(false);
        }
        if jb.len() < ja.len() {
            assert(join_colon(a)[ja.len() as int] == ':');
            assert(join_colon(b)[ja.len() as int] == bl[ja.len() - jb.len() - 1]);
            assert(false);
        }
        assert(ja =~= jb) by {
            assert(forall|k: int| 0 <= k < ja.len() ==> join_colon(a)[k] == ja[k]);
            assert(forall|k: int| 0 <= k < jb.len() ==> join_colon(b)[k] == jb[k]);
        }
        assert(al =~= bl) by {
            assert(al.len() == join_colon(a).len() - ja.len() - 1);
            assert(bl.len() == join_colon(b).len() - jb.len() - 1);
            assert(forall|k: int|
                0 <= k < al.len() ==> join_colon(a)[ja.len() + 1 + k] == al[k]);
            assert(forall|k: int|
                0 <= k < bl.len() ==> join_colon(b)[jb.len() + 1 + k] == bl[k]);
        }
        assert(colon_free(a.drop_last())) by {
            assert(forall|i: int| 0 <= i < a.drop_last().len() ==> a.drop_last()[i] == a[i]);
        }
        assert(colon_free(b.drop_last())) by {
            assert(forall|i: int| 0 <= i < b.drop_last().len() ==> b.drop_last()[i] == b[i]);
        }
        lemma_split_unique(a.drop_last(), b.drop_last());
        assert(a =~= b) by {
            assert(forall|i: int|
                0 <= i < a.len() - 1 ==> a[i] == a.drop_last()[i] && b[i] == b.drop_last()[i]);
        }
    }
}

/// A text that denotes segments pins its colon split: the split is
/// eight groups, or groups around one gap (an empty part in the middle,
/// two leading or two trailing empty parts, or three empty parts for
/// the bare gap), within the group-count bounds.
#[verifier::rlimit(100)]
proof fn lemma_decomp_split(text: Seq<char>, segs: Seq<u16>, ps: Seq<Seq<char>>)
    requires
        ipv6_decomp(text, segs),
        ps.len() >= 1,
        colon_free(ps),
        join_colon(ps) == text,
    ensures
        ({
            ||| (ps.len() == 8 && all_groups(ps))
            ||| (exists|p: int|
                1 <= p <= ps.len() - 2 && ps.len() <= 8 && (#[trigger] ps[p]).len() == 0
                    && all_groups(ps.subrange(0, p)) && all_groups(
                    ps.subrange(p + 1, ps.len() as int),
                ))
            ||| (3 <= ps.len() <= 9 && ps[0].len() == 0 && ps[1].len() == 0 && all_groups(
                ps.subrange(2, ps.len() as int),
            ))
            ||| (3 <= ps.len() <= 9 && ps[ps.len() - 2].len() == 0 && ps[ps.len() - 1].len() == 0
                && all_groups(ps.subrange(0, ps.len() - 2)))
            ||| (ps.len() == 3 && ps[0].len() == 0 && ps[1].len() == 0 && ps[2].len() == 0)
        }),
{
    if exists|w: Seq<Seq<char>>|
        all_groups(w) && w.len() == 8 && join_colon(w) == text && segs == group_vals(w) {
        let w = choose|w: Seq<Seq<char>>|
            all_groups(w) && w.len() == 8 && join_colon(w) == text && segs == group_vals(w);
        assert(colon_free(w)) by {
            assert forall|i: int| 0 <= i < w.len() implies no_char(#[trigger] w[i], ':') by {
                lemma_group_no_colon(w[i]);
            }
        }
        lemma_split_unique(ps, w);
    } else {
        let (l, r) = choose|l: Seq<Seq<char>>, r: Seq<Seq<char>>|
            #![trigger group_vals(l), group_vals(r)]
            all_groups(l) && all_groups(r) && l.len() + r.len() <= 7 && text == join_colon(l)
                + seq![':', ':'] + join_colon(r) && segs == group_vals(l) + zero_segs(
                (8 - l.len() - r.len()) as nat,
            ) + group_vals(r);
        let e = Seq::<char>::empty();
        let padl = if l.len() == 0 {
            seq![e]
        } else {
            l
        };
        let padr = if r.len() == 0 {
            seq![e]
        } else {
            r
        };
        let mid = seq![e] + padr;
        let full = padl + mid;
        assert(colon_free(full)) by {
            assert forall|i: int| 0 <= i < full.len() implies no_char(#[trigger] full[i], ':') by {
                if i < padl.len() {
                    assert(full[i] == padl[i]);
                    if l.len() > 0 {
                        lemma_group_no_colon(l[i]);
                    }
                } else if i == padl.len() {
                    assert(full[i] == e);
                } else {
                    assert(full[i] == padr[i - padl.len() - 1]);
                    if r.len() > 0 {
                        lemma_group_no_colon(r[i - padl.len() - 1]);
                    }
                }
            }
        }
        lemma_join_append(seq![e], padr);
        assert(join_colon(seq![e]) == e);
        assert(join_colon(mid) =~= seq![':'] + join_colon(padr));
        lemma_join_append(padl, mid);
        if l.len() == 0 {
            assert(join_colon(padl) == e);
        }
        if r.len() == 0 {
            assert(join_colon(padr) == e);
        }
        assert(join_colon(full) =~= join_colon(l) + seq![':', ':'] + join_colon(r)) by {
            if l.len() == 0 {
                assert(join_colon(l) =~= Seq::<char>::empty());
            } else {
                assert(join_colon(padl) == join_colon(l));
            }
            if r.len() == 0 {
                assert(join_colon(r) =~= Seq::<char>::empty());
            } else {
                assert(join_colon(padr) == join_colon(r));
            }
        }
        lemma_split_unique(ps, full);
        if l.len() > 0 && r.len() > 0 {
            let p = l.len() as int;
            assert(ps[p].len() == 0);
            assert(ps.subrange(0, p) =~= l);
            assert(ps.subrange(p + 1, ps.len() as int) =~= r);
            assert(1 <= p <= ps.len() - 2 && ps.len() <= 8);
        } else if l.len() == 0 && r.len() > 0 {
            assert(ps[0] == e && ps[1] == e);
            assert(ps.subrange(2, ps.len() as int) =~= r);
            assert(3 <= ps.len() <= 9);
        } else if l.len() > 0 && r.len() == 0 {
            assert(ps[ps.len() - 2] == e && ps[ps.len() - 1] == e);
            assert(ps.subrange(0, ps.len() - 2) =~= l);
            assert(3 <= ps.len() <= 9);
        } else {
            assert(ps =~= seq![e, e, e]);
        }
    }
}

/// A text that denotes segments begins with a hex digit or a colon, and
/// is at least two characters long.
proof fn lemma_decomp_first_char(text: Seq<char>, segs: Seq<u16>)
    requires
        ipv6_decomp(text, segs),
    ensures
        text.len() >= 2,
        text[0] == ':' || is_hex_digit(text[0]),
{
    if exists|w: Seq<Seq<char>>|
        all_groups(w) && w.len() == 8 && join_colon(w) == text && segs == group_vals(w) {
        let w = choose|w: Seq<Seq<char>>|
            all_groups(w) && w.len() == 8 && join_colon(w) == text && segs == group_vals(w);
        assert(is_group(w[0]));
        lemma_join_head(w);
        assert(is_hex_digit(w[0][0]));
        assert(join_colon(w) == join_colon(w.drop_last()) + seq![':'] + w.last());
        assert(is_group(w[7]));
        assert(text.len() >= 2);
    } else {
        let (l, r) = choose|l: Seq<Seq<char>>, r: Seq<Seq<char>>|
            #![trigger group_vals(l), group_vals(r)]
            all_groups(l) && all_groups(r) && l.len() + r.len() <= 7 && text == join_colon(l)
                + seq![':', ':'] + join_colon(r) && segs == group_vals(l) + zero_segs(
                (8 - l.len() - r.len()) as nat,
            ) + group_vals(r);
        if l.len() == 0 {
            assert(join_colon(l) =~= Seq::<char>::empty());
            assert(text[0] == ':');
        } else {
            assert(is_group(l[0]));
            lemma_join_head(l);
            assert(text[0] == l[0][0]);
        }
    }
}

/// A character that is neither a hex digit nor a colon appears nowhere
/// in a text that denotes segments.
proof fn lemma_decomp_no_char(text: Seq<char>, segs: Seq<u16>, c: char)
    requires
        ipv6_decomp(text, segs),
        c != ':',
        !is_hex_digit(c),
    ensures
        no_char(text, c),
{
    if exists|w: Seq<Seq<char>>|
        all_groups(w) && w.len() == 8 && join_colon(w) == text && segs == group_vals(w) {
        let w = choose|w: Seq<Seq<char>>|
            all_groups(w) && w.len() == 8 && join_colon(w) == text && segs == group_vals(w);
        assert(forall|i: int| 0 <= i < w.len() ==> no_char(#[trigger] w[i], c)) by {
            assert forall|i: int| 0 <= i < w.len() implies no_char(#[trigger] w[i], c) by {
                assert(is_group(w[i]));
                assert forall|j: int| 0 <= j < w[i].len() implies w[i][j] != c by {
                    assert(is_hex_digit(w[i][j]));
                }
            }
        }
        lemma_join_no_char(w, c);
    } else {
        let (l, r) = choose|l: Seq<Seq<char>>, r: Seq<Seq<char>>|
            #![trigger group_vals(l), group_vals(r)]
            all_groups(l) && all_groups(r) && l.len() + r.len() <= 7 && text == join_colon(l)
                + seq![':', ':'] + join_colon(r) && segs == group_vals(l) + zero_segs(
                (8 - l.len() - r.len()) as nat,
            ) + group_vals(r);
        assert(forall|i: int| 0 <= i < l.len() ==> no_char(#[trigger] l[i], c)) by {
            assert forall|i: int| 0 <= i < l.len() implies no_char(#[trigger] l[i], c) by {
                assert(is_group(l[i]));
                assert forall|j: int| 0 <= j < l[i].len() implies l[i][j] != c by {
                    assert(is_hex_digit(l[i][j]));
                }
            }
        }
        assert(forall|i: int| 0 <= i < r.len() ==> no_char(#[trigger] r[i], c)) by {
            assert forall|i: int| 0 <= i < r.len() implies no_char(#[trigger] r[i], c) by {
                assert(is_group(r[i]));
                assert forall|j: int| 0 <= j < r[i].len() implies r[i][j] != c by {
                    assert(is_hex_digit(r[i][j]));
                }
            }
        }
        lemma_join_no_char(l, c);
        lemma_join_no_char(r, c);
        let jl = join_colon(l);
        let jr = join_colon(r);
        assert forall|k: int| 0 <= k < text.len() implies text[k] != c by {
            if k < jl.len() {
                assert(text[k] == jl[k]);
            } else if k < jl.len() + 2 {
                assert(text[k] == ':');
            } else {
                assert(text[k] == jr[k - jl.len() - 2]);
            }
        }
    }
}

/// Parses a range of parts as address groups.
///
/// Succeeds exactly when every part in the range is a group, and then
/// yields their values.
fn parse_groups(parts: &Vec<Vec<char>>, start: usize, end: usize) -> (r: Option<Vec<u16>>)
    requires
        start <= end <= parts@.len(),
    ensures
        r is Some <==> all_groups(parts.deep_view().subrange(start as int, end as int)),
        r is Some ==> r->0@ == group_vals(parts.deep_view().subrange(start as int, end as int)),
{
    let ghost ps = parts.deep_view().subrange(start as int, end as int);
    let mut vals: Vec<u16> = Vec::new();
    let mut k: usize = start;
    while k < end
        invariant
            start <= k <= end <= parts@.len(),
            ps == parts.deep_view().subrange(start as int, end as int),
            vals@.len() == k - start,
            forall|i: int| 0 <= i < k - start ==> is_group(#[trigger] ps[i]),
            forall|i: int| 0 <= i < k - start ==> vals@[i] == hex_val(ps[i]) as u16,
        decreases end - k,
    {
        proof {
            assert(parts.deep_view()[k as int] == parts@[k as int]@);
            assert(ps[k - start] == parts.deep_view()[k as int]);
        }
        let part = &parts[k];
        let v = match parse_hex_group(part, 0, part.len()) {
            Some(v) => v,
            None => {
                proof {
                    assert(part@.subrange(0, part@.len() as int) =~= part@);
                    if all_groups(ps) {
                        assert(is_group(ps[k - start]));
                    }
                }
                return None;
            },
        };
        proof {
            assert(part@.subrange(0, part@.len() as int) =~= part@);
        }
        vals.push(v);
        k = k + 1;
    }
    proof {
        assert(vals@ =~= group_vals(ps));
    }
    Some(vals)
}

/// Appends `count` zero segments to a segment vector.
fn push_zero_segs(segs: &mut Vec<u16>, count: usize)
    ensures
        final(segs)@ == old(segs)@ + zero_segs(count as nat),
{
    let mut k: usize = 0;
    while k < count
        invariant
            0 <= k <= count,
            segs@ =~= old(segs)@ + zero_segs(k as nat),
        decreases count - k,
    {
        segs.push(0);
        proof {
            assert(segs@ =~= old(segs)@ + zero_segs(k as nat + 1));
        }
        k = k + 1;
    }
    proof {
        assert(segs@ =~= old(segs)@ + zero_segs(count as nat));
    }
}

/// True when the index list holds the given position.
pub open spec fn empties_has(es: Seq<usize>, i: int) -> bool {
    exists|j: int| 0 <= j < es.len() && es[j] as int == i
}

/// For a text that denotes segments, the exact record of its split's
/// empty positions takes one of the five accepted forms: none (eight
/// groups), one in the middle, the two leading, the two trailing, or
/// all of exactly three.
proof fn lemma_complete_cases(text: Seq<char>, ps: Seq<Seq<char>>, es: Seq<usize>)
    requires
        exists|segs: Seq<u16>| ipv6_decomp(text, segs),
        ps.len() >= 1,
        colon_free(ps),
        join_colon(ps) == text,
        forall|j: int|
            0 <= j < es.len() ==> (#[trigger] es[j]) < ps.len() && ps[es[j] as int].len() == 0,
        forall|i: int| 0 <= i < ps.len() && (#[trigger] ps[i]).len() == 0 ==> empties_has(es, i),
        forall|j1: int, j2: int| 0 <= j1 < j2 < es.len() ==> es[j1] < es[j2],
    ensures
        ({
            ||| (es.len() == 0 && ps.len() == 8 && all_groups(ps))
            ||| (es.len() == 1 && 1 <= es[0] && es[0] + 2 <= ps.len() && ps.len() <= 8
                && all_groups(ps.subrange(0, es[0] as int)) && all_groups(
                ps.subrange(es[0] as int + 1, ps.len() as int),
            ))
            ||| (es.len() == 2 && es[0] == 0 && es[1] == 1 && 3 <= ps.len() <= 9 && all_groups(
                ps.subrange(2, ps.len() as int),
            ))
            ||| (es.len() == 2 && es[0] as int == ps.len() - 2 && es[1] as int == ps.len() - 1 && 3
                <= ps.len() <= 9 && all_groups(ps.subrange(0, ps.len() - 2)))
            ||| (es.len() == 3 && ps.len() == 3 && es[0] == 0 && es[1] == 1 && es[2] == 2)
        }),
{
    let segs = choose|segs: Seq<u16>| ipv6_decomp(text, segs);
    lemma_decomp_split(text, segs, ps);
    if ps.len() == 8 && all_groups(ps) {
        if es.len() > 0 {
            assert(ps[es[0] as int].len() == 0);
            assert(is_group(ps[es[0] as int]));
            assert(false);
        }
    } else if exists|p: int|
        1 <= p <= ps.len() - 2 && ps.len() <= 8 && (#[trigger] ps[p]).len() == 0 && all_groups(
            ps.subrange(0, p),
        ) && all_groups(ps.subrange(p + 1, ps.len() as int)) {
        let p = choose|p: int|
            1 <= p <= ps.len() - 2 && ps.len() <= 8 && (#[trigger] ps[p]).len() == 0 && all_groups(
                ps.subrange(0, p),
            ) && all_groups(ps.subrange(p + 1, ps.len() as int));
        assert(empties_has(es, p));
        assert forall|j2: int| 0 <= j2 < es.len() implies es[j2] as int == p by {
            let i = es[j2] as int;
            assert(ps[i].len() == 0);
            if i < p {
                assert(ps.subrange(0, p)[i] == ps[i]);
                assert(is_group(ps[i]));
                assert(false);
            } else if i > p {
                assert(ps.subrange(p + 1, ps.len() as int)[i - p - 1] == ps[i]);
                assert(is_group(ps[i]));
                assert(false);
            }
        }
        if es.len() >= 2 {
            assert(es[0] < es[1]);
            assert(false);
        }
        let j = choose|j: int| 0 <= j < es.len() && es[j] as int == p;
        assert(es.len() == 1 && es[0] as int == p);
    } else if 3 <= ps.len() <= 9 && ps[0].len() == 0 && ps[1].len() == 0 && all_groups(
        ps.subrange(2, ps.len() as int),
    ) {
        assert(empties_has(es, 0));
        assert(empties_has(es, 1));
        assert forall|j2: int| 0 <= j2 < es.len() implies es[j2] as int <= 1 by {
            let i = es[j2] as int;
            if i >= 2 {
                assert(ps.subrange(2, ps.len() as int)[i - 2] == ps[i]);
                assert(is_group(ps[i]));
                assert(false);
            }
        }
        let j0 = choose|j: int| 0 <= j < es.len() && es[j] as int == 0;
        let j1 = choose|j: int| 0 <= j < es.len() && es[j] as int == 1;
        assert(j0 != j1);
        if es.len() >= 3 {
            assert(es[0] < es[1] && es[1] < es[2]);
            assert(false);
        }
        assert(es.len() == 2 && es[0] == 0 && es[1] == 1);
    } else if 3 <= ps.len() <= 9 && ps[ps.len() - 2].len() == 0 && ps[ps.len() - 1].len() == 0
        && all_groups(ps.subrange(0, ps.len() - 2)) {
        assert(empties_has(es, ps.len() - 2));
        assert(empties_has(es, ps.len() - 1));
        assert forall|j2: int| 0 <= j2 < es.len() implies es[j2] as int >= ps.len() - 2 by {
            let i = es[j2] as int;
            if i < ps.len() - 2 {
                assert(ps.subrange(0, ps.len() - 2)[i] == ps[i]);
                assert(is_group(ps[i]));
                assert(false);
            }
        }
        let j0 = choose|j: int| 0 <= j < es.len() && es[j] as int == ps.len() - 2;
        let j1 = choose|j: int| 0 <= j < es.len() && es[j] as int == ps.len() - 1;
        assert(j0 != j1);
        if es.len() >= 3 {
            assert(es[0] < es[1] && es[1] < es[2]);
            assert(false);
        }
        assert(es.len() == 2 && es[0] as int == ps.len() - 2 && es[1] as int == ps.len() - 1);
    } else {
        assert(ps.len() == 3 && ps[0].len() == 0 && ps[1].len() == 0 && ps[2].len() == 0);
        assert(empties_has(es, 0));
        assert(empties_has(es, 1));
        assert(empties_has(es, 2));
        let j0 = choose|j: int| 0 <= j < es.len() && es[j] as int == 0;
        let j1 = choose|j: int| 0 <= j < es.len() && es[j] as int == 1;
        let j2 = choose|j: int| 0 <= j < es.len() && es[j] as int == 2;
        assert(j0 != j1 && j1 != j2 && j0 != j2);
        if es.len() >= 4 {
            assert(es[0] < es[1] && es[1] < es[2] && es[2] < es[3]);
            assert(es[3] as int <= 2);
            assert(false);
        }
        assert(es.len() == 3 && es[0] == 0 && es[1] == 1 && es[2] == 2);
    }
}

/// Parses a character range as an IPv6 literal.
///
/// A parsed result is always the eight segments the text denotes, and
/// every text that denotes segments parses.
#[verifier::rlimit(100)]
fn parse_ipv6_chars(chars: &Vec<char>, start: usize, end: usize) -> (r: Option<Vec<u16>>)
    requires
        start <= end <= chars@.len(),
    ensures
        r is Some ==> r->0@.len() == 8 && ipv6_decomp(
            chars@.subrange(start as int, end as int),
            r->0@,
        ),
        (exists|segs: Seq<u16>|
            ipv6_decomp(chars@.subrange(start as int, end as int), segs)) ==> r is Some,
{
    let ghost text = chars@.subrange(start as int, end as int);
    let parts = split_parts(chars, start, end);
    let ghost ps = parts.deep_view();
    let m = parts.len();
    let mut empties: Vec<usize> = Vec::new();
    let mut k: usize = 0;
    while k < m
        invariant
            m == ps.len(),
            ps == parts.deep_view(),
            0 <= k <= m,
            forall|j: int|
                0 <= j < empties@.len() ==> (#[trigger] empties@[j]) < k
                    && ps[empties@[j] as int].len() == 0,
            forall|i: int| 0 <= i < k && (#[trigger] ps[i]).len() == 0 ==> empties_has(empties@, i),
            forall|j1: int, j2: int| 0 <= j1 < j2 < empties@.len() ==> empties@[j1] < empties@[j2],
        decreases m - k,
    {
        proof {
            assert(ps[k as int] == parts@[k as int]@);
        }
        if parts[k].len() == 0 {
            let ghost prev = empties@;
            empties.push(k);
            proof {
                assert(empties@[empties@.len() - 1] == k);
                assert(empties_has(empties@, k as int));
                assert forall|i: int|
                    0 <= i < k + 1 && (#[trigger] ps[i]).len() == 0 implies empties_has(
                    empties@,
                    i,
                ) by {
                    if i < k {
                        let j = choose|j: int| 0 <= j < prev.len() && prev[j] as int == i;
                        assert(empties@[j] as int == i);
                    }
                }
            }
        }
        k = k + 1;
    }
    if empties.len() == 0 {
        if m != 8 {
            proof {
                if exists|segs: Seq<u16>| ipv6_decomp(text, segs) {
                    lemma_complete_cases(text, ps, empties@);
                    assert(false);
                }
            }
            return None;
        }
        let vals = match parse_groups(&parts, 0, 8) {
            Some(v) => v,
            None => {
                proof {
                    if exists|segs: Seq<u16>| ipv6_decomp(text, segs) {
                        lemma_complete_cases(text, ps, empties@);
                        assert(ps.subrange(0, 8) =~= ps);
                        assert(false);
                    }
                }
                return None;
            },
        };
        proof {
            assert(ps.subrange(0, 8) =~= ps);
            assert(vals@.len() == 8);
        }
        Some(vals)
    } else if empties.len() == 1 {
        let p = empties[0];
        if p == 0 || p + 1 >= m {
            proof {
                if exists|segs: Seq<u16>| ipv6_decomp(text, segs) {
                    lemma_complete_cases(text, ps, empties@);
                    assert(false);
                }
            }
            return None;
        }
        let left = match parse_groups(&parts, 0, p) {
            Some(v) => v,
            None => {
                proof {
                    if exists|segs: Seq<u16>| ipv6_decomp(text, segs) {
                        lemma_complete_cases(text, ps, empties@);
                        assert(false);
                    }
                }
                return None;
            },
        };
        let right = match parse_groups(&parts, p + 1, m) {
            Some(v) => v,
            None => {
                proof {
                    if exists|segs: Seq<u16>| ipv6_decomp(text, segs) {
                        lemma_complete_cases(text, ps, empties@);
                        assert(false);
                    }
                }
                return None;
            },
        };
        if left.len() + right.len() > 7 {
            proof {
                if exists|segs: Seq<u16>| ipv6_decomp(text, segs) {
                    lemma_complete_cases(text, ps, empties@);
                    assert(left@.len() == p as int);
                    assert(right@.len() == m - p - 1);
                    assert(false);
                }
            }
            return None;
        }
        let ghost l = ps.subrange(0, p as int);
        let ghost rr = ps.subrange(p as int + 1, m as int);
        let mut segs = left;
        let gap = 8 - segs.len() - right.len();
        push_zero_segs(&mut segs, gap);
        let mut right_mut = right;
        segs.append(&mut right_mut);
        proof {
            assert(ps[p as int].len() == 0);
            assert(ps[p as int] =~= Seq::<char>::empty());
            let mid = seq![ps[p as int]] + rr;
            assert(ps =~= l + mid);
            lemma_join_append(l, mid);
            lemma_join_append(seq![ps[p as int]], rr);
            assert(join_colon(seq![ps[p as int]]) =~= Seq::<char>::empty());
            assert(join_colon(mid) =~= seq![':'] + join_colon(rr));
            assert(text =~= join_colon(l) + seq![':', ':'] + join_colon(rr));
            assert(segs@ =~= group_vals(l) + zero_segs((8 - l.len() - rr.len()) as nat)
                + group_vals(rr));
            assert(ipv6_decomp(text, segs@));
        }
        Some(segs)
    } else if empties.len() == 2 {
        let e1 = empties[0];
        let e2 = empties[1];
        if e1 == 0 && e2 == 1 {
            if m < 3 {
                proof {
                    if exists|segs: Seq<u16>| ipv6_decomp(text, segs) {
                        lemma_complete_cases(text, ps, empties@);
                        assert(false);
                    }
                }
                return None;
            }
            let right = match parse_groups(&parts, 2, m) {
                Some(v) => v,
                None => {
                    proof {
                        if exists|segs: Seq<u16>| ipv6_decomp(text, segs) {
                            lemma_complete_cases(text, ps, empties@);
                            assert(false);
                        }
                    }
                    return None;
                },
            };
            if right.len() > 7 {
                proof {
                    if exists|segs: Seq<u16>| ipv6_decomp(text, segs) {
                        lemma_complete_cases(text, ps, empties@);
                        assert(right@.len() == m - 2);
                        assert(false);
                    }
                }
                return None;
            }
            let ghost l = Seq::<Seq<char>>::empty();
            let ghost rr = ps.subrange(2, m as int);
            let mut segs: Vec<u16> = Vec::new();
            push_zero_segs(&mut segs, 8 - right.len());
            let mut right_mut = right;
            segs.append(&mut right_mut);
            proof {
                assert(ps[0].len() == 0 && ps[1].len() == 0);
                assert(ps =~= seq![ps[0], ps[1]] + rr);
                lemma_join_append(seq![ps[0], ps[1]], rr);
                assert(seq![ps[0], ps[1]].drop_last() =~= seq![ps[0]]);
                assert(join_colon(seq![ps[0]]) == ps[0]);
                assert(join_colon(seq![ps[0], ps[1]]) =~= seq![':']);
                assert(join_colon(l) =~= Seq::<char>::empty());
                assert(text =~= join_colon(l) + seq![':', ':'] + join_colon(rr));
                assert(group_vals(l) =~= Seq::<u16>::empty());
                assert(segs@ =~= group_vals(l) + zero_segs((8 - rr.len()) as nat)
                    + group_vals(rr));
                assert(ipv6_decomp(text, segs@));
            }
            Some(segs)
        } else if m >= 3 && e1 == m - 2 && e2 == m - 1 {
            let left = match parse_groups(&parts, 0, m - 2) {
                Some(v) => v,
                None => {
                    proof {
                        if exists|segs: Seq<u16>| ipv6_decomp(text, segs) {
                            lemma_complete_cases(text, ps, empties@);
                            assert(false);
                        }
                    }
                    return None;
                },
            };
            if left.len() > 7 {
                proof {
                    if exists|segs: Seq<u16>| ipv6_decomp(text, segs) {
                        lemma_complete_cases(text, ps, empties@);
                        assert(left@.len() == m - 2);
                        assert(false);
                    }
                }
                return None;
            }
            let ghost l = ps.subrange(0, m as int - 2);
            let ghost rr = Seq::<Seq<char>>::empty();
            let mut segs = left;
            let gap = 8 - segs.len();
            push_zero_segs(&mut segs, gap);
            proof {
                assert(ps[m - 2].len() == 0 && ps[m - 1].len() == 0);
                assert(ps =~= l + seq![ps[m - 2], ps[m - 1]]);
                lemma_join_append(l, seq![ps[m - 2], ps[m - 1]]);
                assert(seq![ps[m - 2], ps[m - 1]].drop_last() =~= seq![ps[m - 2]]);
                assert(join_colon(seq![ps[m - 2]]) == ps[m - 2]);
                assert(join_colon(seq![ps[m - 2], ps[m - 1]]) =~= seq![':']);
                assert(join_colon(rr) =~= Seq::<char>::empty());
                assert(text =~= join_colon(l) + seq![':', ':'] + join_colon(rr));
                assert(group_vals(rr) =~= Seq::<u16>::empty());
                assert(segs@ =~= group_vals(l) + zero_segs((8 - l.len()) as nat) + group_vals(rr));
                assert(ipv6_decomp(text, segs@));
            }
            Some(segs)
        } else {
            proof {
                if exists|segs: Seq<u16>| ipv6_decomp(text, segs) {
                    lemma_complete_cases(text, ps, empties@);
                    assert(false);
                }
            }
            None
        }
    } else if empties.len() == 3 && m == 3 {
        let e1 = empties[0];
        let e2 = empties[1];
        let e3 = empties[2];
        if e1 == 0 && e2 == 1 && e3 == 2 {
            let mut segs: Vec<u16> = Vec::new();
            push_zero_segs(&mut segs, 8);
            proof {
                let l = Seq::<Seq<char>>::empty();
                let rr = Seq::<Seq<char>>::empty();
                assert(ps[0].len() == 0 && ps[1].len() == 0 && ps[2].len() == 0);
                assert(ps.drop_last() =~= seq![ps[0], ps[1]]);
                assert(seq![ps[0], ps[1]].drop_last() =~= seq![ps[0]]);
                assert(join_colon(seq![ps[0]]) == ps[0]);
                assert(join_colon(seq![ps[0], ps[1]]) =~= seq![':']);
                assert(text =~= seq![':', ':']);
                assert(join_colon(l) =~= Seq::<char>::empty());
                assert(text =~= join_colon(l) + seq![':', ':'] + join_colon(rr));
                assert(group_vals(l) =~= Seq::<u16>::empty());
                assert(segs@ =~= group_vals(l) + zero_segs(8nat) + group_vals(rr));
                assert(ipv6_decomp(text, segs@));
            }
            Some(segs)
        } else {
            proof {
                if exists|segs: Seq<u16>| ipv6_decomp(text, segs) {
                    lemma_complete_cases(text, ps, empties@);
                    assert(false);
                }
            }
            None
        }
    } else {
        proof {
            if exists|segs: Seq<u16>| ipv6_decomp(text, segs) {
                lemma_complete_cases(text, ps, empties@);
                assert(false);
            }
        }
        None
    }
}

/// The characters of the loopback host prefix.
pub open spec fn localhost_prefix() -> Seq<char> {
    "localhost:"@
}

/// True when the text is `localhost:` followed by a port.
pub open spec fn is_localhost_text(s: Seq<char>) -> bool {
    s.len() > localhost_prefix().len() && s.take(localhost_prefix().len() as int)
        == localhost_prefix() && is_port_text(s.skip(localhost_prefix().len() as int))
}

/// True when a parsed address is what the text denotes: a bare port or a
/// `localhost:` port resolve to the loopback, a bare IPv6 literal takes
/// the default port, and the bracketed form pairs its literal with its
/// port (or the default when the port is left empty).
pub open spec fn addr_described(text: Seq<char>, segs: Seq<u16>, port: u16) -> bool {
    ||| (is_port_text(text) && segs == loopback_segs() && port == port_val(text))
    ||| (is_localhost_text(text) && segs == loopback_segs() && port == port_val(
        text.skip(localhost_prefix().len() as int),
    ))
    ||| (ipv6_decomp(text, segs) && port == DEFAULT_PORT)
    ||| (exists|inner: Seq<char>, ptext: Seq<char>|
        #![trigger ipv6_decomp(inner, segs), ptext.len()]
        text == seq!['['] + inner + seq![']', ':'] + ptext && ipv6_decomp(inner, segs) && (
        ptext.len() == 0 ==> port == DEFAULT_PORT) && (ptext.len() > 0 ==> is_port_text(ptext)
            && port == port_val(ptext)))
}

/// The loopback address with the given port.
fn loopback_addr(port: u16) -> (r: ParsedAddr)
    ensures
        r.segments@ == loopback_segs(),
        r.port == port,
{
    let mut segments: Vec<u16> = Vec::new();
    push_zero_segs(&mut segments, 7);
    segments.push(1);
    proof {
        assert(segments@ =~= loopback_segs());
    }
    ParsedAddr { segments, port }
}

/// An address that is described, is no port, no loopback-host port and
/// no bare literal, is the bracketed form.
proof fn lemma_described_is_bracket(text: Seq<char>, segs: Seq<u16>, port: u16)
    requires
        addr_described(text, segs, port),
        !is_port_text(text),
        !is_localhost_text(text),
        !ipv6_decomp(text, segs),
    ensures
        exists|inner: Seq<char>, ptext: Seq<char>|
            #![trigger ipv6_decomp(inner, segs), ptext.len()]
            text == seq!['['] + inner + seq![']', ':'] + ptext && ipv6_decomp(inner, segs) && (
            ptext.len() == 0 ==> port == DEFAULT_PORT) && (ptext.len() > 0 ==> is_port_text(ptext)
                && port == port_val(ptext)),
{
}

/// In a bracketed address text the first closing bracket stands right
/// after the literal, the colon right after it, and the literal and the
/// port text are the ranges around them.
proof fn lemma_bracket_shape(text: Seq<char>, segs: Seq<u16>, inner: Seq<char>, ptext: Seq<char>)
    requires
        text == seq!['['] + inner + seq![']', ':'] + ptext,
        ipv6_decomp(inner, segs),
    ensures
        text.len() == 3 + inner.len() + ptext.len(),
        text[0] == '[',
        text[inner.len() as int + 1] == ']',
        text[inner.len() as int + 2] == ':',
        forall|j: int| 1 <= j <= inner.len() ==> text[j] != ']',
        inner == text.subrange(1, inner.len() as int + 1),
        ptext == text.subrange(inner.len() as int + 3, text.len() as int),
{
    lemma_decomp_no_char(inner, segs, ']');
    assert forall|j: int| 1 <= j <= inner.len() implies text[j] != ']' by {
        if j <= inner.len() {
            assert(text[j] == inner[j - 1]);
        }
    }
    assert(inner =~= text.subrange(1, inner.len() as int + 1));
    assert(ptext =~= text.subrange(inner.len() as int + 3, text.len() as int));
}

/// Parses a dial or bind address.
///
/// A bare port and a `localhost:` port resolve to the IPv6 loopback; a
/// bare IPv6 literal takes the default port; `[ipv6]:port` pairs the
/// literal with the port, the default when the port is left empty.
/// Whatever parses is exactly what the text denotes, everything the
/// grammar describes parses, and everything else is rejected.
#[verifier::rlimit(100)]
pub fn parse_ipv6_address(addr: &str) -> (r: Result<ParsedAddr, NetworkError>)
    ensures
        r is Ok ==> r->Ok_0.segments@.len() == 8 && addr_described(
            addr@,
            r->Ok_0.segments@,
            r->Ok_0.port,
        ),
        is_port_text(addr@) ==> r is Ok && r->Ok_0.segments@ == loopback_segs() && r->Ok_0.port
            == port_val(addr@),
        is_localhost_text(addr@) ==> r is Ok && r->Ok_0.segments@ == loopback_segs()
            && r->Ok_0.port == port_val(addr@.skip(localhost_prefix().len() as int)),
        (exists|segs: Seq<u16>, port: u16| addr_described(addr@, segs, port)) ==> r is Ok,
{
    proof {
        reveal_strlit("localhost:");
    }
    let chars = string_chars(addr);
    let n = chars.len();
    if n == 0 {
        proof {
            if exists|segs: Seq<u16>, port: u16| addr_described(addr@, segs, port) {
                let (segs, port) = choose|segs: Seq<u16>, port: u16|
                    addr_described(addr@, segs, port);
                if ipv6_decomp(addr@, segs) {
                    lemma_decomp_first_char(addr@, segs);
                    assert(false);
                }
                lemma_described_is_bracket(addr@, segs, port);
                let (inner, ptext) = choose|inner: Seq<char>, ptext: Seq<char>|
                    #![trigger ipv6_decomp(inner, segs), ptext.len()]
                    addr@ == seq!['['] + inner + seq![']', ':'] + ptext && ipv6_decomp(inner, segs)
                        && (ptext.len() == 0 ==> port == DEFAULT_PORT) && (ptext.len() > 0
                        ==> is_port_text(ptext) && port == port_val(ptext));
                assert(addr@.len() == 3 + inner.len() + ptext.len());
                assert(false);
            }
        }
        return Err(NetworkError::Connection(String::from_str("empty address")));
    }
    if chars[0] == '[' {
        proof {
            assert(!is_port_text(addr@)) by {
                if is_port_text(addr@) {
                    assert(is_dec_digit(addr@[0]));
                }
            }
            assert(!is_localhost_text(addr@)) by {
                reveal_strlit("localhost:");
                if is_localhost_text(addr@) {
                    assert(addr@.take(localhost_prefix().len() as int)[0] == 'l');
                }
            }
        }
        let mut e: usize = 1;
        while e < n && chars[e] != ']'
            invariant
                n == chars@.len(),
                1 <= e <= n,
                forall|j: int| 1 <= j < e ==> chars@[j] != ']',
            decreases n - e,
        {
            e = e + 1;
        }
        if e == n {
            proof {
                if exists|segs: Seq<u16>, port: u16| addr_described(addr@, segs, port) {
                    let (segs, port) = choose|segs: Seq<u16>, port: u16|
                        addr_described(addr@, segs, port);
                    if ipv6_decomp(addr@, segs) {
                        lemma_decomp_first_char(addr@, segs);
                        assert(false);
                    }
                    lemma_described_is_bracket(addr@, segs, port);
                    let (inner, ptext) = choose|inner: Seq<char>, ptext: Seq<char>|
                    #![trigger ipv6_decomp(inner, segs), ptext.len()]
                    addr@ == seq!['['] + inner + seq![']', ':'] + ptext && ipv6_decomp(inner, segs)
                    && (ptext.len() == 0 ==> port == DEFAULT_PORT) && (ptext.len() > 0
                    ==> is_port_text(ptext) && port == port_val(ptext));
                    lemma_bracket_shape(addr@, segs, inner, ptext);
                    let il = inner.len() as int;
                    assert(addr@[il + 1] == ']');
                    assert(1 <= il + 1 < n);
                    assert(false);
                }
            }
            return Err(NetworkError::Connection(String::from_str("unclosed bracket in address")));
        }
        if e + 1 >= n || chars[e + 1] != ':' {
            proof {
                if exists|segs: Seq<u16>, port: u16| addr_described(addr@, segs, port) {
                    let (segs, port) = choose|segs: Seq<u16>, port: u16|
                        addr_described(addr@, segs, port);
                    if ipv6_decomp(addr@, segs) {
                        lemma_decomp_first_char(addr@, segs);
                        assert(false);
                    }
                    lemma_described_is_bracket(addr@, segs, port);
                    let (inner, ptext) = choose|inner: Seq<char>, ptext: Seq<char>|
                    #![trigger ipv6_decomp(inner, segs), ptext.len()]
                    addr@ == seq!['['] + inner + seq![']', ':'] + ptext && ipv6_decomp(inner, segs)
                    && (ptext.len() == 0 ==> port == DEFAULT_PORT) && (ptext.len() > 0
                    ==> is_port_text(ptext) && port == port_val(ptext));
                    lemma_bracket_shape(addr@, segs, inner, ptext);
                    let il = inner.len() as int;
                    if e < il + 1 {
                        assert(addr@[e as int] != ']');
                        assert(false);
                    }
                    if e > il + 1 {
                        assert(chars@[il + 1] != ']');
                        assert(false);
                    }
                    assert(e == il + 1);
                    assert(addr@[e as int + 1] == ':');
                    assert(e + 1 < n);
                    assert(false);
                }
            }
            return Err(NetworkError::Connection(String::from_str("missing port in address")));
        }
        let segments = match parse_ipv6_chars(&chars, 1, e) {
            Some(s) => s,
            None => {
                proof {
                    if exists|segs: Seq<u16>, port: u16| addr_described(addr@, segs, port) {
                        let (segs, port) = choose|segs: Seq<u16>, port: u16|
                            addr_described(addr@, segs, port);
                        if ipv6_decomp(addr@, segs) {
                            lemma_decomp_first_char(addr@, segs);
                            assert(false);
                        }
                        lemma_described_is_bracket(addr@, segs, port);
                        let (inner, ptext) = choose|inner: Seq<char>, ptext: Seq<char>|
                        #![trigger ipv6_decomp(inner, segs), ptext.len()]
                        addr@ == seq!['['] + inner + seq![']', ':'] + ptext && ipv6_decomp(inner, segs)
                        && (ptext.len() == 0 ==> port == DEFAULT_PORT) && (ptext.len() > 0
                        ==> is_port_text(ptext) && port == port_val(ptext));
                        lemma_bracket_shape(addr@, segs, inner, ptext);
                        let il = inner.len() as int;
                        if e < il + 1 {
                            assert(addr@[e as int] != ']');
                            assert(false);
                        }
                        if e > il + 1 {
                            assert(chars@[il + 1] != ']');
                            assert(false);
                        }
                        assert(e == il + 1);
                        assert(inner =~= chars@.subrange(1, e as int));
                        assert(ipv6_decomp(chars@.subrange(1, e as int), segs));
                        assert(false);
                    }
                }
                return Err(NetworkError::Connection(String::from_str("bad address literal")));
            },
        };
        let port = if e + 2 == n {
            DEFAULT_PORT
        } else {
            match parse_port_chars(&chars, e + 2, n) {
                Some(p) => p,
                None => {
                    proof {
                        if exists|segs: Seq<u16>, port: u16| addr_described(addr@, segs, port) {
                            let (segs, port) = choose|segs: Seq<u16>, port: u16|
                                addr_described(addr@, segs, port);
                            if ipv6_decomp(addr@, segs) {
                                lemma_decomp_first_char(addr@, segs);
                                assert(false);
                            }
                            lemma_described_is_bracket(addr@, segs, port);
                            let (inner, ptext) = choose|inner: Seq<char>, ptext: Seq<char>|
                            #![trigger ipv6_decomp(inner, segs), ptext.len()]
                            addr@ == seq!['['] + inner + seq![']', ':'] + ptext && ipv6_decomp(inner, segs)
                            && (ptext.len() == 0 ==> port == DEFAULT_PORT) && (ptext.len() > 0
                            ==> is_port_text(ptext) && port == port_val(ptext));
                            lemma_bracket_shape(addr@, segs, inner, ptext);
                            let il = inner.len() as int;
                            if e < il + 1 {
                                assert(addr@[e as int] != ']');
                                assert(false);
                            }
                            if e > il + 1 {
                                assert(chars@[il + 1] != ']');
                                assert(false);
                            }
                            assert(e == il + 1);
                            assert(ptext =~= chars@.subrange(e as int + 2, n as int));
                            assert(ptext.len() > 0);
                            assert(is_port_text(chars@.subrange(e as int + 2, n as int)));
                            assert(false);
                        }
                    }
                    return Err(NetworkError::Connection(String::from_str("bad port in address")));
                },
            }
        };
        proof {
            let inner = addr@.subrange(1, e as int);
            let ptext = addr@.subrange(e as int + 2, n as int);
            assert(addr@ =~= seq!['['] + inner + seq![']', ':'] + ptext);
            assert(ipv6_decomp(inner, segments@));
            assert(ptext.len() == n - e - 2);
            if ptext.len() > 0 {
                assert(is_port_text(ptext));
            }
            assert(addr_described(addr@, segments@, port));
        }
        return Ok(ParsedAddr { segments, port });
    }
    match parse_port_chars(&chars, 0, n) {
        Some(p) => {
            proof {
                assert(chars@.subrange(0, n as int) =~= addr@);
            }
            return Ok(loopback_addr(p));
        },
        None => {
        },
    }
    proof {
        assert(chars@.subrange(0, n as int) =~= addr@);
    }
    let prefix = string_chars("localhost:");
    let plen = prefix.len();
    let mut is_localhost = n > plen;
    if is_localhost {
        let mut k: usize = 0;
        let matched = {
            let mut ok = true;
            while k < plen
                invariant
                    n == chars@.len(),
                    plen == prefix@.len(),
                    prefix@ == localhost_prefix(),
                    n > plen,
                    0 <= k <= plen,
                    ok <==> (forall|j: int| 0 <= j < k ==> chars@[j] == prefix@[j]),
                decreases plen - k,
            {
                if chars[k] != prefix[k] {
                    ok = false;
                    proof {
                        assert(chars@[k as int] != prefix@[k as int]);
                    }
                    k = plen;
                } else {
                    k = k + 1;
                }
            }
            ok
        };
        is_localhost = matched;
    }
    proof {
        if is_localhost_text(addr@) && !is_localhost {
            assert(addr@.take(localhost_prefix().len() as int) =~= localhost_prefix());
            assert(forall|j: int|
                0 <= j < localhost_prefix().len() ==> addr@[j] == addr@.take(
                    localhost_prefix().len() as int,
                )[j]);
            assert(false);
        }
    }
    if is_localhost {
        match parse_port_chars(&chars, plen, n) {
            Some(p) => {
                proof {
                    assert(chars@.subrange(plen as int, n as int) =~= addr@.skip(
                        localhost_prefix().len() as int,
                    ));
                    assert(addr@.take(localhost_prefix().len() as int) =~= localhost_prefix());
                }
                return Ok(loopback_addr(p));
            },
            None => {
                proof {
                    reveal_strlit("localhost:");
                    assert(chars@.subrange(plen as int, n as int) =~= addr@.skip(
                        localhost_prefix().len() as int,
                    ));
                    if exists|segs: Seq<u16>, port: u16| addr_described(addr@, segs, port) {
                        let (segs, port) = choose|segs: Seq<u16>, port: u16|
                            addr_described(addr@, segs, port);
                        assert(chars@[0] == 'l');
                        if ipv6_decomp(addr@, segs) {
                            lemma_decomp_first_char(addr@, segs);
                            assert(false);
                        }
                        lemma_described_is_bracket(addr@, segs, port);
                        let (inner, ptext) = choose|inner: Seq<char>, ptext: Seq<char>|
                    #![trigger ipv6_decomp(inner, segs), ptext.len()]
                    addr@ == seq!['['] + inner + seq![']', ':'] + ptext && ipv6_decomp(inner, segs)
                        && (ptext.len() == 0 ==> port == DEFAULT_PORT) && (ptext.len() > 0
                        ==> is_port_text(ptext) && port == port_val(ptext));
                        assert(addr@[0] == '[');
                        assert(false);
                    }
                }
                return Err(NetworkError::Connection(String::from_str("bad port in address")));
            },
        }
    }
    match parse_ipv6_chars(&chars, 0, n) {
        Some(segments) => {
            proof {
                assert(chars@.subrange(0, n as int) =~= addr@);
            }
            Ok(ParsedAddr { segments, port: DEFAULT_PORT })
        },
        None => {
            proof {
                if exists|segs: Seq<u16>, port: u16| addr_described(addr@, segs, port) {
                    let (segs, port) = choose|segs: Seq<u16>, port: u16|
                        addr_described(addr@, segs, port);
                    assert(chars@.subrange(0, n as int) =~= addr@);
                    if ipv6_decomp(addr@, segs) {
                        assert(ipv6_decomp(chars@.subrange(0, n as int), segs));
                        assert(false);
                    }
                    lemma_described_is_bracket(addr@, segs, port);
                    let (inner, ptext) = choose|inner: Seq<char>, ptext: Seq<char>|
                    #![trigger ipv6_decomp(inner, segs), ptext.len()]
                    addr@ == seq!['['] + inner + seq![']', ':'] + ptext && ipv6_decomp(inner, segs)
                        && (ptext.len() == 0 ==> port == DEFAULT_PORT) && (ptext.len() > 0
                        ==> is_port_text(ptext) && port == port_val(ptext));
                    assert(addr@[0] == '[');
                    assert(false);
                }
            }
            Err(NetworkError::Connection(String::from_str("unrecognized address form")))
        },
    }
}

} // verus!
