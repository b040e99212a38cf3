//! The snapshot payload and its wire codec.
//!
//! A snapshot carries four unsigned 64-bit memory figures and one
//! core-utilization figure per logical core. On the wire it is one JSON
//! object in a fixed canonical form: the four integer fields in a fixed
//! order, then the utilization array. Core utilizations travel as decimal
//! number texts (one JSON number token per core, as the sampler rendered
//! them); this core never interprets them, it only frames them.

use vstd::prelude::*;
use vstd::string::{StrSliceExecFns, StringExecFns};

verus! {

/// The character of one decimal digit.
pub open spec fn digit_char(d: nat) -> char {
    if d == 0 {
        '0'
    } else if d == 1 {
        '1'
    } else if d == 2 {
        '2'
    } else if d == 3 {
        '3'
    } else if d == 4 {
        '4'
    } else if d == 5 {
        '5'
    } else if d == 6 {
        '6'
    } else if d == 7 {
        '7'
    } else if d == 8 {
        '8'
    } else {
        '9'
    }
}

/// The value of one decimal digit character (0 for anything else).
pub open spec fn digit_val(c: char) -> nat {
    if c == '1' {
        1
    } else if c == '2' {
        2
    } else if c == '3' {
        3
    } else if c == '4' {
        4
    } else if c == '5' {
        5
    } else if c == '6' {
        6
    } else if c == '7' {
        7
    } else if c == '8' {
        8
    } else if c == '9' {
        9
    } else {
        0
    }
}

/// A decimal digit character.
pub open spec fn is_digit_char(c: char) -> bool {
    '0' <= c && c <= '9'
}

/// The canonical decimal rendering of `n`: no sign, no leading zeros.
pub open spec fn dec_chars(n: nat) -> Seq<char>
    decreases n,
{
    if n < 10 {
        seq![digit_char(n)]
    } else {
        dec_chars(n / 10) + seq![digit_char(n % 10)]
    }
}

/// The number a digit string denotes.
pub open spec fn digits_val(ds: Seq<char>) -> nat
    decreases ds.len(),
{
    if ds.len() == 0 {
        0
    } else {
        digits_val(ds.drop_last()) * 10 + digit_val(ds.last())
    }
}

/// Digit characters and digit values invert each other.
pub proof fn lemma_digit_roundtrip(d: nat)
    requires
        d < 10,
    ensures
        digit_val(digit_char(d)) == d,
        is_digit_char(digit_char(d)),
{
}

/// The canonical rendering denotes the number itself, is never empty, holds
/// only digits, and starts with '0' only for 0.
pub proof fn lemma_dec_chars_facts(n: nat)
    ensures
        dec_chars(n).len() >= 1,
        digits_val(dec_chars(n)) == n,
        forall|i: int| 0 <= i < dec_chars(n).len() ==> is_digit_char(#[trigger] dec_chars(n)[i]),
        n > 0 ==> dec_chars(n)[0] != '0',
        n < 10 ==> dec_chars(n).len() == 1,
    decreases n,
{
    if n < 10 {
        lemma_digit_roundtrip(n);
        assert(dec_chars(n) =~= seq![digit_char(n)]);
        assert(dec_chars(n).drop_last() =~= Seq::<char>::empty());
        assert(digits_val(Seq::<char>::empty()) == 0);
        assert(dec_chars(n).last() == digit_char(n));
        assert(digits_val(dec_chars(n)) == digit_val(digit_char(n)));
    } else {
        lemma_digit_roundtrip(n % 10);
        lemma_dec_chars_facts(n / 10);
        assert(n / 10 >= 1 && n % 10 < 10) by (nonlinear_arith)
            requires
                n >= 10,
        ;
        let head = dec_chars(n / 10);
        let all = dec_chars(n);
        assert(all =~= head + seq![digit_char(n % 10)]);
        assert(all.drop_last() =~= head);
        assert(digits_val(all) == (n / 10) * 10 + n % 10);
        assert((n / 10) * 10 + n % 10 == n) by (nonlinear_arith);
        assert(all[0] == head[0]);
    }
}

/// A digit string with no spurious leading zero is the canonical rendering
/// of its own value.
pub proof fn lemma_digits_canonical(ds: Seq<char>)
    requires
        ds.len() > 0,
        forall|i: int| 0 <= i < ds.len() ==> is_digit_char(#[trigger] ds[i]),
        ds[0] != '0' || ds.len() == 1,
    ensures
        ds == dec_chars(digits_val(ds)),
        ds[0] != '0' ==> digits_val(ds) >= 1,
    decreases ds.len(),
{
    if ds.len() == 1 {
        assert(digits_val(ds) == digits_val(ds.drop_last()) * 10 + digit_val(ds[0]));
        assert(ds.drop_last().len() == 0);
        assert(digits_val(ds) == digit_val(ds[0]));
        assert(digits_val(ds) < 10);
        assert(ds =~= dec_chars(digits_val(ds)));
    } else {
        let head = ds.drop_last();
        let d = ds.last();
        assert(head[0] == ds[0]);
        assert(forall|i: int| 0 <= i < head.len() ==> is_digit_char(#[trigger] head[i]));
        lemma_digits_canonical(head);
        let hv = digits_val(head);
        assert(hv >= 1);
        let v = digits_val(ds);
        assert(v == hv * 10 + digit_val(d));
        assert(v / 10 == hv && v % 10 == digit_val(d) && v >= 10) by (nonlinear_arith)
            requires
                v == hv * 10 + digit_val(d),
                hv >= 1,
                digit_val(d) < 10,
        ;
        assert(digit_char(digit_val(d)) == d);
        assert(dec_chars(v) =~= dec_chars(hv) + seq![d]);
        assert(ds =~= head + seq![d]);
    }
}

/// The value of a digit string never shrinks as digits are appended.
pub proof fn lemma_digits_val_prefix(ds: Seq<char>, k: int)
    requires
        0 <= k <= ds.len(),
    ensures
        digits_val(ds.take(k)) <= digits_val(ds),
    decreases ds.len() - k,
{
    if k == ds.len() {
        assert(ds.take(k) =~= ds);
    } else {
        lemma_digits_val_prefix(ds, k + 1);
        let t = ds.take(k + 1);
        assert(t.drop_last() =~= ds.take(k));
        assert(digits_val(ds.take(k)) <= digits_val(t)) by (nonlinear_arith)
            requires
                digits_val(t) == digits_val(ds.take(k)) * 10 + digit_val(t.last()),
        ;
    }
}

/// The canonical rendering of `n`, as text.
pub fn dec_string(n: u64) -> (r: String)
    ensures
        r@ == dec_chars(n as nat),
    decreases n,
{
    proof {
        reveal_strlit("0123456789");
    }
    let digits = "0123456789";
    let d = (n % 10) as usize;
    if n < 10 {
        let s = digits.substring_ascii(d, d + 1);
        proof {
            assert(s@ =~= seq![digit_char(n as nat)]);
        }
        s.to_owned()
    } else {
        let mut r = dec_string(n / 10);
        let s = digits.substring_ascii(d, d + 1);
        proof {
            assert(s@ =~= seq![digit_char((n as nat) % 10)]);
        }
        r.append(s);
        r
    }
}

/// A character a number token may contain.
pub open spec fn is_number_char(c: char) -> bool {
    is_digit_char(c) || c == '.' || c == '-' || c == '+' || c == 'e' || c == 'E'
}

/// A JSON number token: non-empty, made of number characters only.
pub open spec fn is_number_token(t: Seq<char>) -> bool {
    t.len() > 0 && forall|i: int| 0 <= i < t.len() ==> is_number_char(#[trigger] t[i])
}

/// The tokens laid out one after another, separated by commas.
pub open spec fn join_tokens(ts: Seq<Seq<char>>) -> Seq<char>
    decreases ts.len(),
{
    if ts.len() == 0 {
        Seq::empty()
    } else if ts.len() == 1 {
        ts[0]
    } else {
        ts[0] + seq![','] + join_tokens(ts.drop_first())
    }
}

/// Appending one more token appends one comma and the token.
pub proof fn lemma_join_push(ts: Seq<Seq<char>>, t: Seq<char>)
    ensures
        join_tokens(ts.push(t)) == if ts.len() == 0 {
            t
        } else {
            join_tokens(ts) + seq![','] + t
        },
    decreases ts.len(),
{
    if ts.len() == 0 {
        assert(ts.push(t) =~= seq![t]);
        assert(join_tokens(seq![t]) == t);
    } else if ts.len() == 1 {
        assert(ts.push(t).drop_first() =~= seq![t]);
        assert(ts.push(t)[0] == ts[0]);
        assert(join_tokens(seq![t]) == t);
        assert(ts.push(t).len() == 2);
        assert(join_tokens(ts.push(t)) == ts[0] + seq![','] + t);
        assert(join_tokens(ts) == ts[0]);
    } else {
        lemma_join_push(ts.drop_first(), t);
        assert(ts.push(t).drop_first() =~= ts.drop_first().push(t));
        assert(ts.push(t)[0] == ts[0]);
        assert(ts[0] + seq![','] + (join_tokens(ts.drop_first()) + seq![','] + t) =~= (ts[0]
            + seq![','] + join_tokens(ts.drop_first())) + seq![','] + t);
    }
}

/// The texts of a sequence of utilization strings.
pub open spec fn token_views(v: Seq<String>) -> Seq<Seq<char>> {
    v.map_values(|t: String| t@)
}

/// Every entry is a number token.
pub open spec fn all_number_tokens(ts: Seq<Seq<char>>) -> bool {
    forall|m: int| 0 <= m < ts.len() ==> is_number_token(#[trigger] ts[m])
}

/// One sampled snapshot of the host, ready for the wire.
pub struct SnapshotPayload {
    /// Total memory, in the sampler's unit.
    pub tot_memory: u64,
    /// Used memory.
    pub used_memory: u64,
    /// Total swap.
    pub tot_swap: u64,
    /// Used swap.
    pub used_swap: u64,
    /// One utilization figure per logical core, in core-index order, each
    /// already rendered as a JSON number token by the sampler.
    pub cpu_util: Vec<String>,
}

impl SnapshotPayload {
    /// The utilization texts, as character sequences.
    pub open spec fn cpu_tokens(self) -> Seq<Seq<char>> {
        token_views(self.cpu_util@)
    }

    /// Every utilization text is a number token.
    pub open spec fn wf(self) -> bool {
        all_number_tokens(self.cpu_tokens())
    }

    /// Equal in all fields: what the codec round trip preserves.
    pub open spec fn equiv(self, other: Self) -> bool {
        &&& self.tot_memory == other.tot_memory
        &&& self.used_memory == other.used_memory
        &&& self.tot_swap == other.tot_swap
        &&& self.used_swap == other.used_swap
        &&& self.cpu_tokens() == other.cpu_tokens()
    }

    /// Render this snapshot in the canonical wire form.
    pub fn encode(&self) -> (r: String)
        ensures
            r@ == encode_spec(*self),
    {
        proof {
            reveal_strlit(",");
        }
        let mut r = String::from_str("{\"tot_memory\":");
        r.append(dec_string(self.tot_memory).as_str());
        r.append(",\"used_memory\":");
        r.append(dec_string(self.used_memory).as_str());
        r.append(",\"tot_swap\":");
        r.append(dec_string(self.tot_swap).as_str());
        r.append(",\"used_swap\":");
        r.append(dec_string(self.used_swap).as_str());
        r.append(",\"cpu_util\":[");
        let ghost head = r@;
        let n = self.cpu_util.len();
        let mut i: usize = 0;
        while i < n
            invariant
                n == self.cpu_util.len(),
                i <= n,
                r@ == head + join_tokens(self.cpu_tokens().take(i as int)),
            decreases n - i,
        {
            proof {
                reveal_strlit(",");
                lemma_join_push(
                    self.cpu_tokens().take(i as int),
                    self.cpu_tokens()[i as int],
                );
                assert(self.cpu_tokens().take(i + 1) =~= self.cpu_tokens().take(
                    i as int,
                ).push(self.cpu_tokens()[i as int]));
                assert(","@ =~= seq![',']);
            }
            if i > 0 {
                r.append(",");
            }
            let t: &String = &self.cpu_util[i];
            r.append(t.as_str());
            i = i + 1;
        }
        proof {
            assert(self.cpu_tokens().take(n as int) =~= self.cpu_tokens());
        }
        r.append("]}");
        r
    }
}

/// The canonical wire form: the four integer fields in fixed order with
/// canonical decimal values, then the utilization tokens, comma-separated,
/// in brackets.
pub open spec fn encode_spec(p: SnapshotPayload) -> Seq<char> {
    "{\"tot_memory\":"@ + dec_chars(p.tot_memory as nat) + ",\"used_memory\":"@ + dec_chars(
        p.used_memory as nat,
    ) + ",\"tot_swap\":"@ + dec_chars(p.tot_swap as nat) + ",\"used_swap\":"@ + dec_chars(
        p.used_swap as nat,
    ) + ",\"cpu_util\":["@ + join_tokens(p.cpu_tokens()) + "]}"@
}

/// `q` is well-formed and `s` is exactly its canonical encoding.
pub open spec fn is_encoding_of(s: Seq<char>, q: SnapshotPayload) -> bool {
    q.wf() && s == encode_spec(q)
}

/// Cutting a suffix known to be `a + b` cuts it into `a` and `b`.
proof fn lemma_peel(s: Seq<char>, i: int, a: Seq<char>, b: Seq<char>)
    requires
        0 <= i <= s.len(),
        s.subrange(i, s.len() as int) == a + b,
    ensures
        i + a.len() + b.len() == s.len(),
        s.subrange(i, i + a.len()) == a,
        s.subrange(i + a.len(), s.len() as int) == b,
{
    assert(s.subrange(i, s.len() as int).len() == s.len() - i);
    assert((a + b).len() == a.len() + b.len());
    assert(a.len() + b.len() == s.len() - i);
    assert forall|k: int| 0 <= k < a.len() implies s.subrange(i, i + a.len())[k] == a[k] by {
        assert(s.subrange(i, s.len() as int)[k] == (a + b)[k]);
    }
    assert(s.subrange(i, i + a.len()) =~= a);
    assert forall|k: int| 0 <= k < b.len() implies s.subrange(i + a.len(), s.len() as int)[k]
        == b[k] by {
        assert(s.subrange(i + a.len(), s.len() as int)[k] == s[i + a.len() + k]);
        assert(s.subrange(i, s.len() as int)[a.len() + k] == s[i + a.len() + k]);
        assert((a + b)[a.len() + k] == b[k]);
    }
    assert(s.subrange(i + a.len(), s.len() as int) =~= b);
}

/// Two canonical decimal renderings starting at the same place, each ending
/// at a non-digit or at the end, are the same rendering of the same number.
proof fn lemma_dec_unique_at(s: Seq<char>, i: int, v1: nat, v2: nat, j1: int, j2: int)
    requires
        0 <= i <= j1 <= s.len(),
        0 <= i <= j2 <= s.len(),
        s.subrange(i, j1) == dec_chars(v1),
        s.subrange(i, j2) == dec_chars(v2),
        j1 == s.len() || !is_digit_char(s[j1]),
        j2 == s.len() || !is_digit_char(s[j2]),
    ensures
        v1 == v2,
        j1 == j2,
{
    lemma_dec_chars_facts(v1);
    lemma_dec_chars_facts(v2);
    if j1 < j2 {
        assert(s[j1] == dec_chars(v2)[j1 - i]);
        assert(is_digit_char(s[j1]));
    }
    if j2 < j1 {
        assert(s[j2] == dec_chars(v1)[j2 - i]);
        assert(is_digit_char(s[j2]));
    }
    assert(j1 == j2);
    assert(dec_chars(v1) == dec_chars(v2));
    assert(digits_val(dec_chars(v1)) == digits_val(dec_chars(v2)));
}

/// Two number tokens starting at the same place, each ending at a
/// non-number character or at the end, are the same token.
proof fn lemma_token_unique_at(s: Seq<char>, i: int, t1: Seq<char>, t2: Seq<char>, j1: int, j2: int)
    requires
        0 <= i <= j1 <= s.len(),
        0 <= i <= j2 <= s.len(),
        s.subrange(i, j1) == t1,
        s.subrange(i, j2) == t2,
        is_number_token(t1),
        is_number_token(t2),
        j1 == s.len() || !is_number_char(s[j1]),
        j2 == s.len() || !is_number_char(s[j2]),
    ensures
        t1 == t2,
        j1 == j2,
{
    if j1 < j2 {
        assert(s[j1] == t2[j1 - i]);
        assert(is_number_char(s[j1]));
    }
    if j2 < j1 {
        assert(s[j2] == t1[j2 - i]);
        assert(is_number_char(s[j2]));
    }
}

/// Position right after the opening label of the first field.
spec fn pos_b0() -> int {
    "{\"tot_memory\":"@.len() as int
}

/// Position right after the first field's digits.
spec fn pos_e1(q: SnapshotPayload) -> int {
    pos_b0() + dec_chars(q.tot_memory as nat).len()
}

/// Position right after the second field's label.
spec fn pos_b1(q: SnapshotPayload) -> int {
    pos_e1(q) + ",\"used_memory\":"@.len()
}

/// Position right after the second field's digits.
spec fn pos_e2(q: SnapshotPayload) -> int {
    pos_b1(q) + dec_chars(q.used_memory as nat).len()
}

/// Position right after the third field's label.
spec fn pos_b2(q: SnapshotPayload) -> int {
    pos_e2(q) + ",\"tot_swap\":"@.len()
}

/// Position right after the third field's digits.
spec fn pos_e3(q: SnapshotPayload) -> int {
    pos_b2(q) + dec_chars(q.tot_swap as nat).len()
}

/// Position right after the fourth field's label.
spec fn pos_b3(q: SnapshotPayload) -> int {
    pos_e3(q) + ",\"used_swap\":"@.len()
}

/// Position right after the fourth field's digits.
spec fn pos_e4(q: SnapshotPayload) -> int {
    pos_b3(q) + dec_chars(q.used_swap as nat).len()
}

/// Position where the utilization tokens start.
spec fn pos_b4(q: SnapshotPayload) -> int {
    pos_e4(q) + ",\"cpu_util\":["@.len()
}

/// Where each piece of a canonical encoding stands in it.
#[verifier::rlimit(60)]
proof fn lemma_encoding_layout(s: Seq<char>, q: SnapshotPayload)
    requires
        is_encoding_of(s, q),
    ensures
        s.len() == pos_b4(q) + join_tokens(q.cpu_tokens()).len() + 2,
        s.subrange(0, pos_b0()) == "{\"tot_memory\":"@,
        s.subrange(pos_b0(), pos_e1(q)) == dec_chars(q.tot_memory as nat),
        !is_digit_char(s[pos_e1(q)]),
        s.subrange(pos_e1(q), pos_b1(q)) == ",\"used_memory\":"@,
        s.subrange(pos_b1(q), pos_e2(q)) == dec_chars(q.used_memory as nat),
        !is_digit_char(s[pos_e2(q)]),
        s.subrange(pos_e2(q), pos_b2(q)) == ",\"tot_swap\":"@,
        s.subrange(pos_b2(q), pos_e3(q)) == dec_chars(q.tot_swap as nat),
        !is_digit_char(s[pos_e3(q)]),
        s.subrange(pos_e3(q), pos_b3(q)) == ",\"used_swap\":"@,
        s.subrange(pos_b3(q), pos_e4(q)) == dec_chars(q.used_swap as nat),
        !is_digit_char(s[pos_e4(q)]),
        s.subrange(pos_e4(q), pos_b4(q)) == ",\"cpu_util\":["@,
        s.subrange(pos_b4(q), s.len() as int) == join_tokens(q.cpu_tokens()) + "]}"@,
{
    reveal_strlit("{\"tot_memory\":");
    reveal_strlit(",\"used_memory\":");
    reveal_strlit(",\"tot_swap\":");
    reveal_strlit(",\"used_swap\":");
    reveal_strlit(",\"cpu_util\":[");
    reveal_strlit("]}");
    let l1 = "{\"tot_memory\":"@;
    let l2 = ",\"used_memory\":"@;
    let l3 = ",\"tot_swap\":"@;
    let l4 = ",\"used_swap\":"@;
    let l5 = ",\"cpu_util\":["@;
    let l6 = "]}"@;
    let d1 = dec_chars(q.tot_memory as nat);
    let d2 = dec_chars(q.used_memory as nat);
    let d3 = dec_chars(q.tot_swap as nat);
    let d4 = dec_chars(q.used_swap as nat);
    let jn = join_tokens(q.cpu_tokens());
    let p0 = l1 + d1;
    let p1 = p0 + l2;
    let p2 = p1 + d2;
    let p3 = p2 + l3;
    let p4 = p3 + d3;
    let p5 = p4 + l4;
    let p6 = p5 + d4;
    let p7 = p6 + l5;
    let p8 = p7 + jn;
    assert(s == p8 + l6);
    assert(s.subrange(0, l1.len() as int) =~= l1);
    assert(s.subrange(l1.len() as int, p0.len() as int) =~= d1);
    assert(s.subrange(p0.len() as int, p1.len() as int) =~= l2);
    assert(s.subrange(p1.len() as int, p2.len() as int) =~= d2);
    assert(s.subrange(p2.len() as int, p3.len() as int) =~= l3);
    assert(s.subrange(p3.len() as int, p4.len() as int) =~= d3);
    assert(s.subrange(p4.len() as int, p5.len() as int) =~= l4);
    assert(s.subrange(p5.len() as int, p6.len() as int) =~= d4);
    assert(s.subrange(p6.len() as int, p7.len() as int) =~= l5);
    assert(s.subrange(p7.len() as int, s.len() as int) =~= jn + l6);
    assert(s[p0.len() as int] == l2[0]);
    assert(s[p2.len() as int] == l3[0]);
    assert(s[p4.len() as int] == l4[0]);
    assert(s[p6.len() as int] == l5[0]);
}

/// A decimal digit, executably.
fn is_digit(c: char) -> (b: bool)
    ensures
        b == is_digit_char(c),
{
    '0' <= c && c <= '9'
}

/// A number-token character, executably.
fn is_num_char(c: char) -> (b: bool)
    ensures
        b == is_number_char(c),
{
    ('0' <= c && c <= '9') || c == '.' || c == '-' || c == '+' || c == 'e' || c == 'E'
}

/// The value of one digit character, executably.
fn char_digit(c: char) -> (d: u64)
    requires
        is_digit_char(c),
    ensures
        d as nat == digit_val(c),
        d < 10,
{
    if c == '1' {
        1
    } else if c == '2' {
        2
    } else if c == '3' {
        3
    } else if c == '4' {
        4
    } else if c == '5' {
        5
    } else if c == '6' {
        6
    } else if c == '7' {
        7
    } else if c == '8' {
        8
    } else if c == '9' {
        9
    } else {
        0
    }
}

/// The end of the run of decimal digits starting at `i`.
fn digit_run_end(s: &str, i: usize) -> (j: usize)
    requires
        i <= s@.len(),
    ensures
        i <= j <= s@.len(),
        forall|q: int| i <= q < j ==> is_digit_char(#[trigger] s@[q]),
        j < s@.len() ==> !is_digit_char(s@[j as int]),
{
    let n = s.unicode_len();
    let mut j = i;
    while j < n
        invariant
            i <= j <= n,
            n == s@.len(),
            forall|q: int| i <= q < j ==> is_digit_char(#[trigger] s@[q]),
        decreases n - j,
    {
        if !is_digit(s.get_char(j)) {
            return j;
        }
        j = j + 1;
    }
    j
}

/// The end of the run of number-token characters starting at `i`.
fn number_run_end(s: &str, i: usize) -> (j: usize)
    requires
        i <= s@.len(),
    ensures
        i <= j <= s@.len(),
        forall|q: int| i <= q < j ==> is_number_char(#[trigger] s@[q]),
        j < s@.len() ==> !is_number_char(s@[j as int]),
{
    let n = s.unicode_len();
    let mut j = i;
    while j < n
        invariant
            i <= j <= n,
            n == s@.len(),
            forall|q: int| i <= q < j ==> is_number_char(#[trigger] s@[q]),
        decreases n - j,
    {
        if !is_num_char(s.get_char(j)) {
            return j;
        }
        j = j + 1;
    }
    j
}

/// Does `lit` stand at position `i` of `s`? `Some` gives the position right
/// after it; `None` says it does not stand there.
fn expect_lit(s: &str, i: usize, lit: &str) -> (r: Option<usize>)
    requires
        i <= s@.len(),
    ensures
        match r {
            Some(j) => j == i + lit@.len() && j <= s@.len() && s@.subrange(
                i as int,
                j as int,
            ) == lit@,
            None => !(i + lit@.len() <= s@.len() && s@.subrange(
                i as int,
                i + lit@.len(),
            ) == lit@),
        },
{
    let n = s.unicode_len();
    let m = lit.unicode_len();
    if n - i < m {
        return None;
    }
    let mut k: usize = 0;
    while k < m
        invariant
            k <= m,
            i + m <= n,
            n == s@.len(),
            m == lit@.len(),
            forall|q: int| 0 <= q < k ==> s@[i + q] == lit@[q],
        decreases m - k,
    {
        if s.get_char(i + k) != lit.get_char(k) {
            proof {
                assert(s@.subrange(i as int, i + m) != lit@) by {
                    assert(s@.subrange(i as int, i + m)[k as int] == s@[i + k]);
                }
            }
            return None;
        }
        k = k + 1;
    }
    proof {
        assert(s@.subrange(i as int, (i + m) as int) =~= lit@);
    }
    Some(i + m)
}

/// Scan the canonical decimal number standing at `i`: longest digit run, no
/// leading zero, value fitting in a `u64`. `None` says no such number stands
/// there with a non-digit (or the end) after it.
fn scan_u64(s: &str, i: usize) -> (r: Option<(u64, usize)>)
    requires
        i <= s@.len(),
    ensures
        match r {
            Some(vj) => {
                &&& i < vj.1 <= s@.len()
                &&& s@.subrange(i as int, vj.1 as int) == dec_chars(vj.0 as nat)
                &&& (vj.1 == s@.len() || !is_digit_char(s@[vj.1 as int]))
            },
            None => forall|v: u64, j: int|
                !(i <= j <= s@.len() && (j == s@.len() || !is_digit_char(s@[j]))
                    && s@.subrange(i as int, j) == dec_chars(v as nat)),
        },
{
    let n = s.unicode_len();
    if i >= n {
        proof {
            assert forall|v: u64, j: int|
                !(i <= j <= s@.len() && (j == s@.len() || !is_digit_char(s@[j]))
                    && s@.subrange(i as int, j) == dec_chars(v as nat)) by {
                lemma_dec_chars_facts(v as nat);
            }
        }
        return None;
    }
    let c0 = s.get_char(i);
    if !is_digit(c0) {
        proof {
            assert forall|v: u64, j: int|
                !(i <= j <= s@.len() && (j == s@.len() || !is_digit_char(s@[j]))
                    && s@.subrange(i as int, j) == dec_chars(v as nat)) by {
                lemma_dec_chars_facts(v as nat);
                if i <= j <= s@.len() && s@.subrange(i as int, j) == dec_chars(v as nat) {
                    assert(s@[i as int] == dec_chars(v as nat)[0]);
                }
            }
        }
        return None;
    }
    if c0 == '0' {
        if i + 1 < n && is_digit(s.get_char(i + 1)) {
            proof {
                assert forall|v: u64, j: int|
                    !(i <= j <= s@.len() && (j == s@.len() || !is_digit_char(s@[j]))
                        && s@.subrange(i as int, j) == dec_chars(v as nat)) by {
                    lemma_dec_chars_facts(v as nat);
                    if i <= j <= s@.len() && (j == s@.len() || !is_digit_char(s@[j]))
                        && s@.subrange(i as int, j) == dec_chars(v as nat) {
                        assert(s@[i as int] == dec_chars(v as nat)[0]);
                        if v == 0 {
                            assert(j == i + 1);
                        }
                    }
                }
            }
            return None;
        }
        proof {
            assert(dec_chars(0) =~= seq![digit_char(0)]);
            assert(s@.subrange(i as int, i + 1) =~= seq![s@[i as int]]);
        }
        return Some((0, i + 1));
    }
    let end = digit_run_end(s, i);
    assert(i < end);
    let ghost run = s@.subrange(i as int, end as int);
    let mut v: u64 = 0;
    let mut k: usize = i;
    proof {
        assert(s@.subrange(i as int, i as int) =~= Seq::<char>::empty());
    }
    while k < end
        invariant
            i <= k <= end <= n,
            n == s@.len(),
            forall|q: int| i <= q < end ==> is_digit_char(#[trigger] s@[q]),
            end < s@.len() ==> !is_digit_char(s@[end as int]),
            s@[i as int] != '0',
            i < end,
            v as nat == digits_val(s@.subrange(i as int, k as int)),
        decreases end - k,
    {
        let c = s.get_char(k);
        let d = char_digit(c);
        if v > (u64::MAX - d) / 10 {
            proof {
                assert(v as nat * 10 + d as nat > u64::MAX as nat) by (nonlinear_arith)
                    requires
                        v > (u64::MAX - d) / 10,
                        d < 10,
                ;
                assert(s@.subrange(i as int, (k + 1) as int).drop_last() =~= s@.subrange(
                    i as int,
                    k as int,
                ));
                assert(digits_val(s@.subrange(i as int, (k + 1) as int)) == v as nat * 10
                    + d as nat);
                assert forall|vv: u64, j: int|
                    !(i <= j <= s@.len() && (j == s@.len() || !is_digit_char(s@[j]))
                        && s@.subrange(i as int, j) == dec_chars(vv as nat)) by {
                    lemma_dec_chars_facts(vv as nat);
                    if i <= j <= s@.len() && (j == s@.len() || !is_digit_char(s@[j]))
                        && s@.subrange(i as int, j) == dec_chars(vv as nat) {
                        if j < end {
                            assert(is_digit_char(s@[j]));
                        }
                        if j > end {
                            assert(s@[end as int] == dec_chars(vv as nat)[end - i]);
                            assert(is_digit_char(s@[end as int]));
                        }
                        assert(j == end);
                        lemma_digits_val_prefix(s@.subrange(i as int, end as int), k + 1 - i);
                        assert(s@.subrange(i as int, end as int).take(k + 1 - i) =~= s@.subrange(
                            i as int,
                            (k + 1) as int,
                        ));
                        assert(digits_val(s@.subrange(i as int, end as int)) >= digits_val(
                            s@.subrange(i as int, (k + 1) as int),
                        ));
                        assert(vv as nat >= digits_val(s@.subrange(i as int, (k + 1) as int)));
                    }
                }
            }
            return None;
        }
        proof {
            assert(v as nat * 10 + d as nat <= u64::MAX as nat) by (nonlinear_arith)
                requires
                    v <= (u64::MAX - d) / 10,
                    d < 10,
            ;
            assert(s@.subrange(i as int, (k + 1) as int).drop_last() =~= s@.subrange(
                i as int,
                k as int,
            ));
            assert(s@.subrange(i as int, (k + 1) as int).last() == s@[k as int]);
        }
        v = v * 10 + d;
        k = k + 1;
    }
    proof {
        lemma_digits_canonical(s@.subrange(i as int, end as int));
    }
    Some((v, end))
}

/// What remains of a token list's layout after its first `k` tokens: a
/// leading comma (unless nothing came before), then the rest, joined.
pub open spec fn join_suffix(ts: Seq<Seq<char>>, k: int) -> Seq<char> {
    if 0 <= k < ts.len() {
        seq![','] + join_tokens(ts.skip(k))
    } else {
        Seq::empty()
    }
}

/// A joined token list is its first token followed by its suffix after one.
proof fn lemma_join_first(ts: Seq<Seq<char>>)
    requires
        ts.len() >= 1,
    ensures
        join_tokens(ts) == ts[0] + join_suffix(ts, 1),
{
    if ts.len() == 1 {
        assert(join_suffix(ts, 1) =~= Seq::<char>::empty());
        assert(ts[0] + Seq::<char>::empty() =~= ts[0]);
    } else {
        assert(ts.skip(1) =~= ts.drop_first());
        assert(ts[0] + seq![','] + join_tokens(ts.drop_first()) =~= ts[0] + (seq![',']
            + join_tokens(ts.skip(1))));
    }
}

/// A suffix, at a token boundary, is one comma, one token, and the next
/// suffix.
proof fn lemma_join_step(ts: Seq<Seq<char>>, k: int)
    requires
        1 <= k < ts.len(),
    ensures
        join_suffix(ts, k) == seq![','] + (ts[k] + join_suffix(ts, k + 1)),
{
    let rest = ts.skip(k);
    assert(rest[0] == ts[k]);
    if k + 1 == ts.len() {
        assert(rest.len() == 1);
        assert(join_tokens(rest) == rest[0]);
        assert(join_suffix(ts, k + 1) =~= Seq::<char>::empty());
        assert(seq![','] + (ts[k] + Seq::<char>::empty()) =~= seq![','] + ts[k]);
    } else {
        assert(rest.drop_first() =~= ts.skip(k + 1));
        assert(join_tokens(rest) == rest[0] + seq![','] + join_tokens(rest.drop_first()));
        assert(ts[k] + seq![','] + join_tokens(ts.skip(k + 1)) =~= ts[k] + (seq![',']
            + join_tokens(ts.skip(k + 1))));
    }
}

/// Scan the number token standing at `i`: the longest non-empty run of
/// number characters. `None` says none stands there.
fn scan_token(s: &str, i: usize) -> (r: Option<(String, usize)>)
    requires
        i <= s@.len(),
    ensures
        match r {
            Some(tj) => {
                &&& i < tj.1 <= s@.len()
                &&& tj.0@ == s@.subrange(i as int, tj.1 as int)
                &&& is_number_token(tj.0@)
                &&& (tj.1 == s@.len() || !is_number_char(s@[tj.1 as int]))
            },
            None => i == s@.len() || !is_number_char(s@[i as int]),
        },
{
    let end = number_run_end(s, i);
    if end == i {
        return None;
    }
    let t = s.substring_char(i, end).to_owned();
    Some((t, end))
}

/// Parse the canonical wire form, loosely: whenever some well-formed
/// payload encodes to exactly `s`, this returns a payload that also encodes
/// to exactly `s`; on other inputs it may return anything well-formed or
/// nothing.
#[verifier::rlimit(100)]
fn parse_snapshot(s: &str) -> (r: Option<SnapshotPayload>)
    ensures
        match r {
            Some(p) => p.wf() && (forall|q: SnapshotPayload|
                #![trigger is_encoding_of(s@, q)]
                is_encoding_of(s@, q) ==> encode_spec(p) == s@),
            None => forall|q: SnapshotPayload| !is_encoding_of(s@, q),
        },
{
    let n = s.unicode_len();
    let i1 = match expect_lit(s, 0, "{\"tot_memory\":") {
        Some(j) => j,
        None => {
            proof {
                assert forall|q: SnapshotPayload| !is_encoding_of(s@, q) by {
                    if is_encoding_of(s@, q) {
                        lemma_encoding_layout(s@, q);
                    }
                }
            }
            return None;
        },
    };
    let tmj = match scan_u64(s, i1) {
        Some(x) => x,
        None => {
            proof {
                assert forall|q: SnapshotPayload| !is_encoding_of(s@, q) by {
                    if is_encoding_of(s@, q) {
                        lemma_encoding_layout(s@, q);
                    }
                }
            }
            return None;
        },
    };
    let tm = tmj.0;
    let i2 = tmj.1;
    proof {
        assert forall|q: SnapshotPayload| #![trigger is_encoding_of(s@, q)] is_encoding_of(s@, q) implies (tm == q.tot_memory && i2
            as int == pos_e1(q)) by {
            lemma_encoding_layout(s@, q);
            lemma_dec_unique_at(
                s@,
                i1 as int,
                tm as nat,
                q.tot_memory as nat,
                i2 as int,
                pos_e1(q),
            );
        }
    }
    let i3 = match expect_lit(s, i2, ",\"used_memory\":") {
        Some(j) => j,
        None => {
            proof {
                assert forall|q: SnapshotPayload| !is_encoding_of(s@, q) by {
                    if is_encoding_of(s@, q) {
                        lemma_encoding_layout(s@, q);
                    }
                }
            }
            return None;
        },
    };
    let umj = match scan_u64(s, i3) {
        Some(x) => x,
        None => {
            proof {
                assert forall|q: SnapshotPayload| !is_encoding_of(s@, q) by {
                    if is_encoding_of(s@, q) {
                        lemma_encoding_layout(s@, q);
                    }
                }
            }
            return None;
        },
    };
    let um = umj.0;
    let i4 = umj.1;
    proof {
        assert forall|q: SnapshotPayload| #![trigger is_encoding_of(s@, q)] is_encoding_of(s@, q) implies (um == q.used_memory && i4
            as int == pos_e2(q)) by {
            lemma_encoding_layout(s@, q);
            lemma_dec_unique_at(
                s@,
                i3 as int,
                um as nat,
                q.used_memory as nat,
                i4 as int,
                pos_e2(q),
            );
        }
    }
    let i5 = match expect_lit(s, i4, ",\"tot_swap\":") {
        Some(j) => j,
        None => {
            proof {
                assert forall|q: SnapshotPayload| !is_encoding_of(s@, q) by {
                    if is_encoding_of(s@, q) {
                        lemma_encoding_layout(s@, q);
                    }
                }
            }
            return None;
        },
    };
    let swj = match scan_u64(s, i5) {
        Some(x) => x,
        None => {
            proof {
                assert forall|q: SnapshotPayload| !is_encoding_of(s@, q) by {
                    if is_encoding_of(s@, q) {
                        lemma_encoding_layout(s@, q);
                    }
                }
            }
            return None;
        },
    };
    let sw = swj.0;
    let i6 = swj.1;
    proof {
        assert forall|q: SnapshotPayload| #![trigger is_encoding_of(s@, q)] is_encoding_of(s@, q) implies (sw == q.tot_swap && i6
            as int == pos_e3(q)) by {
            lemma_encoding_layout(s@, q);
            lemma_dec_unique_at(s@, i5 as int, sw as nat, q.tot_swap as nat, i6 as int, pos_e3(q));
        }
    }
    let i7 = match expect_lit(s, i6, ",\"used_swap\":") {
        Some(j) => j,
        None => {
            proof {
                assert forall|q: SnapshotPayload| !is_encoding_of(s@, q) by {
                    if is_encoding_of(s@, q) {
                        lemma_encoding_layout(s@, q);
                    }
                }
            }
            return None;
        },
    };
    let suj = match scan_u64(s, i7) {
        Some(x) => x,
        None => {
            proof {
                assert forall|q: SnapshotPayload| !is_encoding_of(s@, q) by {
                    if is_encoding_of(s@, q) {
                        lemma_encoding_layout(s@, q);
                    }
                }
            }
            return None;
        },
    };
    let su = suj.0;
    let i8 = suj.1;
    proof {
        assert forall|q: SnapshotPayload| #![trigger is_encoding_of(s@, q)] is_encoding_of(s@, q) implies (su == q.used_swap && i8
            as int == pos_e4(q)) by {
            lemma_encoding_layout(s@, q);
            lemma_dec_unique_at(
                s@,
                i7 as int,
                su as nat,
                q.used_swap as nat,
                i8 as int,
                pos_e4(q),
            );
        }
    }
    let i9 = match expect_lit(s, i8, ",\"cpu_util\":[") {
        Some(j) => j,
        None => {
            proof {
                assert forall|q: SnapshotPayload| !is_encoding_of(s@, q) by {
                    if is_encoding_of(s@, q) {
                        lemma_encoding_layout(s@, q);
                    }
                }
            }
            return None;
        },
    };
    proof {
        assert forall|q: SnapshotPayload| #![trigger is_encoding_of(s@, q)] is_encoding_of(s@, q) implies (i9 as int == pos_b4(q)
            && s@.subrange(i9 as int, n as int) == join_tokens(q.cpu_tokens()) + "]}"@) by {
            lemma_encoding_layout(s@, q);
        }
    }
    let mut toks: Vec<String> = Vec::new();
    let mut i: usize = i9;
    if i < n && s.get_char(i) == ']' {
        proof {
            assert forall|q: SnapshotPayload| #![trigger is_encoding_of(s@, q)] is_encoding_of(s@, q) implies (q.cpu_tokens().len()
                == 0 && s@.subrange(i as int, n as int) == "]}"@) by {
                let ts = q.cpu_tokens();
                reveal_strlit("]}");
                assert(s@.subrange(i as int, n as int) == join_tokens(ts) + "]}"@);
                if ts.len() > 0 {
                    lemma_join_first(ts);
                    assert(join_tokens(ts) + "]}"@ =~= ts[0] + (join_suffix(ts, 1) + "]}"@));
                    lemma_peel(s@, i as int, ts[0], join_suffix(ts, 1) + "]}"@);
                    assert(is_number_token(ts[0]));
                    assert(s@[i as int] == s@.subrange(i as int, i + ts[0].len())[0]);
                    assert(is_number_char(s@[i as int]));
                    assert(false);
                }
                assert(join_tokens(ts) =~= Seq::<char>::empty());
                assert(Seq::<char>::empty() + "]}"@ =~= "]}"@);
            }
            assert(token_views(toks@) =~= Seq::<Seq<char>>::empty());
        }
    } else {
        proof {
            assert forall|q: SnapshotPayload| #![trigger is_encoding_of(s@, q)] is_encoding_of(s@, q) implies (q.cpu_tokens().len()
                > 0 && i + q.cpu_tokens()[0].len() <= n && s@.subrange(
                i as int,
                i + q.cpu_tokens()[0].len(),
            ) == q.cpu_tokens()[0] && !is_number_char(s@[i + q.cpu_tokens()[0].len()]) && i
                + q.cpu_tokens()[0].len() < n && s@.subrange(i + q.cpu_tokens()[0].len(), n as int)
                == join_suffix(q.cpu_tokens(), 1) + "]}"@) by {
                let ts = q.cpu_tokens();
                reveal_strlit("]}");
                assert(s@.subrange(i as int, n as int) == join_tokens(ts) + "]}"@);
                if ts.len() == 0 {
                    assert(join_tokens(ts) =~= Seq::<char>::empty());
                    assert(Seq::<char>::empty() + "]}"@ =~= "]}"@);
                    assert(s@.subrange(i as int, n as int) == "]}"@);
                    reveal_strlit("]}");
                    assert(s@[i as int] == "]}"@[0]);
                    assert(i < n);
                    assert(false);
                }
                lemma_join_first(ts);
                assert(join_tokens(ts) + "]}"@ =~= ts[0] + (join_suffix(ts, 1) + "]}"@));
                lemma_peel(s@, i as int, ts[0], join_suffix(ts, 1) + "]}"@);
                let b = i + ts[0].len();
                let after = join_suffix(ts, 1) + "]}"@;
                assert(after.len() >= 2);
                assert(s@[b] == s@.subrange(b, n as int)[0]);
                if 1 < ts.len() {
                    assert(after[0] == ',');
                } else {
                    assert(join_suffix(ts, 1) =~= Seq::<char>::empty());
                    reveal_strlit("]}");
                    assert(after[0] == ']');
                }
                assert(!is_number_char(s@[b]));
            }
        }
        let tj0 = match scan_token(s, i) {
            Some(x) => x,
            None => {
                proof {
                    assert forall|q: SnapshotPayload| !is_encoding_of(s@, q) by {
                        if is_encoding_of(s@, q) {
                            let ts = q.cpu_tokens();
                            assert(is_number_token(ts[0]));
                            assert(s@[i as int] == s@.subrange(i as int, i + ts[0].len())[0]);
                            assert(is_number_char(s@[i as int]));
                        }
                    }
                }
                return None;
            },
        };
        proof {
            assert forall|q: SnapshotPayload| #![trigger is_encoding_of(s@, q)] is_encoding_of(s@, q) implies (tj0.0@
                == q.cpu_tokens()[0] && tj0.1 == i + q.cpu_tokens()[0].len()) by {
                lemma_token_unique_at(
                    s@,
                    i as int,
                    tj0.0@,
                    q.cpu_tokens()[0],
                    tj0.1 as int,
                    i + q.cpu_tokens()[0].len(),
                );
            }
        }
        let t0 = tj0.0;
        let j0 = tj0.1;
        toks.push(t0);
        proof {
            assert(token_views(toks@) =~= Seq::<Seq<char>>::empty().push(t0@));
            assert forall|q: SnapshotPayload| #![trigger is_encoding_of(s@, q)] is_encoding_of(s@, q) implies (token_views(toks@)
                == q.cpu_tokens().take(1)) by {
                assert(token_views(toks@) =~= q.cpu_tokens().take(1));
            }
        }
        i = j0;
        while i < n && s.get_char(i) == ','
            invariant
                i <= n,
                n == s@.len(),
                toks@.len() >= 1,
                all_number_tokens(token_views(toks@)),
                forall|q: SnapshotPayload|
                    #![trigger is_encoding_of(s@, q)]
                    is_encoding_of(s@, q) ==> {
                        &&& tm == q.tot_memory
                        &&& um == q.used_memory
                        &&& sw == q.tot_swap
                        &&& su == q.used_swap
                        &&& toks@.len() <= q.cpu_tokens().len()
                        &&& token_views(toks@) == q.cpu_tokens().take(toks@.len() as int)
                        &&& s@.subrange(i as int, n as int) == join_suffix(
                            q.cpu_tokens(),
                            toks@.len() as int,
                        ) + "]}"@
                    },
            decreases n - i,
        {
            let ghost k = toks@.len() as int;
            proof {
                assert forall|q: SnapshotPayload| #![trigger is_encoding_of(s@, q)] is_encoding_of(s@, q) implies ({
                    let ts = q.cpu_tokens();
                    &&& k < ts.len()
                    &&& i + 1 + ts[k].len() < n
                    &&& s@.subrange(i + 1, i + 1 + ts[k].len()) == ts[k]
                    &&& !is_number_char(s@[i + 1 + ts[k].len()])
                    &&& s@.subrange(i + 1 + ts[k].len(), n as int) == join_suffix(ts, k + 1)
                        + "]}"@
                }) by {
                    let ts = q.cpu_tokens();
                    reveal_strlit("]}");
                    assert(s@.subrange(i as int, n as int) == join_suffix(ts, k) + "]}"@);
                    if k == ts.len() {
                        assert(join_suffix(ts, k) =~= Seq::<char>::empty());
                        assert(Seq::<char>::empty() + "]}"@ =~= "]}"@);
                        reveal_strlit("]}");
                        assert(s@[i as int] == "]}"@[0]);
                        assert(false);
                    }
                    lemma_join_step(ts, k);
                    assert(join_suffix(ts, k) + "]}"@ =~= seq![','] + ((ts[k] + (join_suffix(
                        ts,
                        k + 1,
                    ) + "]}"@))));
                    lemma_peel(s@, i as int, seq![','], ts[k] + (join_suffix(ts, k + 1) + "]}"@));
                    lemma_peel(s@, i + 1, ts[k], join_suffix(ts, k + 1) + "]}"@);
                    let b = i + 1 + ts[k].len();
                    let after = join_suffix(ts, k + 1) + "]}"@;
                    assert(after.len() >= 2);
                    assert(s@[b] == s@.subrange(b, n as int)[0]);
                    if k + 1 < ts.len() {
                        assert(after[0] == ',');
                    } else {
                        assert(join_suffix(ts, k + 1) =~= Seq::<char>::empty());
                        reveal_strlit("]}");
                        assert(after[0] == ']');
                    }
                    assert(!is_number_char(s@[b]));
                }
            }
            let tj = match scan_token(s, i + 1) {
                Some(x) => x,
                None => {
                    proof {
                        assert forall|q: SnapshotPayload| !is_encoding_of(s@, q) by {
                            if is_encoding_of(s@, q) {
                                let ts = q.cpu_tokens();
                                assert(is_number_token(ts[k]));
                                assert(s@[i + 1] == s@.subrange(i + 1, i + 1 + ts[k].len())[0]);
                                assert(is_number_char(s@[i + 1]));
                            }
                        }
                    }
                    return None;
                },
            };
            proof {
                assert forall|q: SnapshotPayload| #![trigger is_encoding_of(s@, q)] is_encoding_of(s@, q) implies (tj.0@
                    == q.cpu_tokens()[k] && tj.1 == i + 1 + q.cpu_tokens()[k].len()) by {
                    lemma_token_unique_at(
                        s@,
                        (i + 1) as int,
                        tj.0@,
                        q.cpu_tokens()[k],
                        tj.1 as int,
                        i + 1 + q.cpu_tokens()[k].len(),
                    );
                }
            }
            let t = tj.0;
            let j = tj.1;
            proof {
                assert(token_views(toks@.push(t)) =~= token_views(toks@).push(t@));
                assert forall|m: int|
                    0 <= m < token_views(toks@.push(t)).len() implies is_number_token(
                    #[trigger] token_views(toks@.push(t))[m],
                ) by {
                    if m < toks@.len() {
                        assert(token_views(toks@.push(t))[m] == token_views(toks@)[m]);
                    }
                }
                assert forall|q: SnapshotPayload| #![trigger is_encoding_of(s@, q)] is_encoding_of(s@, q) implies (token_views(
                    toks@.push(t),
                ) == q.cpu_tokens().take(k + 1)) by {
                    assert(q.cpu_tokens().take(k + 1) =~= q.cpu_tokens().take(k).push(
                        q.cpu_tokens()[k],
                    ));
                    assert(token_views(toks@.push(t)) =~= q.cpu_tokens().take(k + 1));
                }
            }
            toks.push(t);
            i = j;
        }
        proof {
            assert forall|q: SnapshotPayload| #![trigger is_encoding_of(s@, q)] is_encoding_of(s@, q) implies (token_views(toks@)
                == q.cpu_tokens() && s@.subrange(i as int, n as int) == "]}"@) by {
                let ts = q.cpu_tokens();
                let k = toks@.len() as int;
                reveal_strlit("]}");
                assert(s@.subrange(i as int, n as int) == join_suffix(ts, k) + "]}"@);
                if k < ts.len() {
                    assert(join_suffix(ts, k)[0] == ',');
                    assert((join_suffix(ts, k) + "]}"@).len() >= 3);
                    assert(s@[i as int] == (join_suffix(ts, k) + "]}"@)[0]);
                    assert(i < n);
                    assert(false);
                }
                assert(ts.take(k) =~= ts);
                assert(join_suffix(ts, k) =~= Seq::<char>::empty());
                assert(Seq::<char>::empty() + "]}"@ =~= "]}"@);
            }
        }
    }
    match expect_lit(s, i, "]}") {
        Some(_) => {},
        None => {
            proof {
                assert forall|q: SnapshotPayload| !is_encoding_of(s@, q) by {
                    if is_encoding_of(s@, q) {
                        assert(s@.subrange(i as int, n as int) == "]}"@);
                        assert(i + "]}"@.len() == n);
                    }
                }
            }
            return None;
        },
    }
    let p = SnapshotPayload {
        tot_memory: tm,
        used_memory: um,
        tot_swap: sw,
        used_swap: su,
        cpu_util: toks,
    };
    proof {
        assert(p.cpu_tokens() == token_views(toks@));
        assert forall|q: SnapshotPayload| #![trigger is_encoding_of(s@, q)] is_encoding_of(s@, q) implies encode_spec(p) == s@ by {
            assert(p.cpu_tokens() == q.cpu_tokens());
            assert(encode_spec(p) == encode_spec(q));
        }
    }
    Some(p)
}

/// Decode the canonical wire form: returns the payload exactly when the
/// input is the canonical encoding of some well-formed payload, and never
/// anything else.
pub fn decode(s: &str) -> (r: Option<SnapshotPayload>)
    ensures
        match r {
            Some(p) => p.wf() && s@ == encode_spec(p),
            None => forall|q: SnapshotPayload| !is_encoding_of(s@, q),
        },
{
    match parse_snapshot(s) {
        None => None,
        Some(p) => {
            let e = p.encode();
            let so = s.to_owned();
            if e == so {
                Some(p)
            } else {
                proof {
                    assert forall|q: SnapshotPayload| !is_encoding_of(s@, q) by {
                        if is_encoding_of(s@, q) {
                            assert(encode_spec(p) == s@);
                        }
                    }
                }
                None
            }
        },
    }
}

/// Joined token lists are told apart again by their commas: tokens hold no
/// comma, so equal joins mean equal lists.
proof fn lemma_join_injective(ts1: Seq<Seq<char>>, ts2: Seq<Seq<char>>)
    requires
        all_number_tokens(ts1),
        all_number_tokens(ts2),
        join_tokens(ts1) == join_tokens(ts2),
    ensures
        ts1 =~= ts2,
    decreases ts1.len(),
{
    if ts1.len() == 0 || ts2.len() == 0 {
        if ts1.len() > 0 {
            lemma_join_first(ts1);
            assert(join_tokens(ts1).len() >= ts1[0].len());
        }
        if ts2.len() > 0 {
            lemma_join_first(ts2);
            assert(join_tokens(ts2).len() >= ts2[0].len());
        }
        assert(ts1.len() == 0 && ts2.len() == 0);
    } else {
        let j = join_tokens(ts1);
        lemma_join_first(ts1);
        lemma_join_first(ts2);
        assert(j.subrange(0, j.len() as int) =~= j);
        lemma_peel(j, 0, ts1[0], join_suffix(ts1, 1));
        lemma_peel(j, 0, ts2[0], join_suffix(ts2, 1));
        let b1 = ts1[0].len() as int;
        let b2 = ts2[0].len() as int;
        assert(b1 == j.len() || !is_number_char(j[b1])) by {
            if b1 < j.len() {
                assert(ts1.len() >= 2);
                assert(j[b1] == join_suffix(ts1, 1)[b1 - b1]);
                assert(join_suffix(ts1, 1)[0] == ',');
            }
        }
        assert(b2 == j.len() || !is_number_char(j[b2])) by {
            if b2 < j.len() {
                assert(ts2.len() >= 2);
                assert(j[b2] == join_suffix(ts2, 1)[b2 - b2]);
                assert(join_suffix(ts2, 1)[0] == ',');
            }
        }
        lemma_token_unique_at(j, 0, ts1[0], ts2[0], b1, b2);
        assert(join_suffix(ts1, 1) == join_suffix(ts2, 1));
        if ts1.len() == 1 && ts2.len() == 1 {
        } else if ts1.len() >= 2 && ts2.len() >= 2 {
            assert(join_suffix(ts1, 1) == seq![','] + join_tokens(ts1.skip(1)));
            assert(join_suffix(ts2, 1) == seq![','] + join_tokens(ts2.skip(1)));
            assert(join_tokens(ts1.skip(1)) =~= join_suffix(ts1, 1).subrange(
                1,
                join_suffix(ts1, 1).len() as int,
            ));
            assert(join_tokens(ts2.skip(1)) =~= join_suffix(ts2, 1).subrange(
                1,
                join_suffix(ts2, 1).len() as int,
            ));
            assert(all_number_tokens(ts1.skip(1))) by {
                assert forall|m: int| 0 <= m < ts1.skip(1).len() implies is_number_token(
                    #[trigger] ts1.skip(1)[m],
                ) by {
                    assert(ts1.skip(1)[m] == ts1[m + 1]);
                }
            }
            assert(all_number_tokens(ts2.skip(1))) by {
                assert forall|m: int| 0 <= m < ts2.skip(1).len() implies is_number_token(
                    #[trigger] ts2.skip(1)[m],
                ) by {
                    assert(ts2.skip(1)[m] == ts2[m + 1]);
                }
            }
            lemma_join_injective(ts1.skip(1), ts2.skip(1));
            assert forall|m: int| 0 <= m < ts1.len() implies ts1[m] == ts2[m] by {
                if m >= 1 {
                    assert(ts1.skip(1)[m - 1] == ts2.skip(1)[m - 1]);
                }
            }
        } else {
            assert((ts1.len() == 1) != (ts2.len() == 1));
            if ts1.len() == 1 {
                assert(join_suffix(ts1, 1) =~= Seq::<char>::empty());
                assert(join_suffix(ts2, 1).len() >= 1);
            } else {
                assert(join_suffix(ts2, 1) =~= Seq::<char>::empty());
                assert(join_suffix(ts1, 1).len() >= 1);
            }
            assert(false);
        }
    }
}

/// Law: the canonical encoding is injective — two well-formed payloads with
/// the same encoding are equal in all fields. Together with the contracts of
/// [`SnapshotPayload::encode`] and [`decode`], encoding a well-formed
/// payload and decoding the result yields a payload equal in all fields to
/// the one encoded.
pub proof fn lemma_codec_round_trip(p1: SnapshotPayload, p2: SnapshotPayload)
    requires
        p1.wf(),
        p2.wf(),
        encode_spec(p1) == encode_spec(p2),
    ensures
        p1.equiv(p2),
{
    let s = encode_spec(p1);
    lemma_encoding_layout(s, p1);
    lemma_encoding_layout(s, p2);
    lemma_dec_unique_at(
        s,
        pos_b0(),
        p1.tot_memory as nat,
        p2.tot_memory as nat,
        pos_e1(p1),
        pos_e1(p2),
    );
    lemma_dec_unique_at(
        s,
        pos_b1(p1),
        p1.used_memory as nat,
        p2.used_memory as nat,
        pos_e2(p1),
        pos_e2(p2),
    );
    lemma_dec_unique_at(
        s,
        pos_b2(p1),
        p1.tot_swap as nat,
        p2.tot_swap as nat,
        pos_e3(p1),
        pos_e3(p2),
    );
    lemma_dec_unique_at(
        s,
        pos_b3(p1),
        p1.used_swap as nat,
        p2.used_swap as nat,
        pos_e4(p1),
        pos_e4(p2),
    );
    lemma_peel(s, pos_b4(p1), join_tokens(p1.cpu_tokens()), "]}"@);
    lemma_peel(s, pos_b4(p2), join_tokens(p2.cpu_tokens()), "]}"@);
    assert(join_tokens(p1.cpu_tokens()).len() == join_tokens(p2.cpu_tokens()).len());
    assert(join_tokens(p1.cpu_tokens()) == join_tokens(p2.cpu_tokens()));
    lemma_join_injective(p1.cpu_tokens(), p2.cpu_tokens());
}

} // verus!

