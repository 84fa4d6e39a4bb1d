//! Log keys: `<time as 39 zero-padded decimal digits>|<uuid text>`.
//!
//! Every `u128` fits in 39 decimal digits, so the padded form has one width
//! for all times, and bytewise order of keys follows the order of times.
use vstd::prelude::*;
use vstd::slice::slice_subrange;

verus! {

/// Width of the decimal time field of a key.
pub const TIME_DIGITS: usize = 39;

/// Byte that separates the time field from the id field.
pub const KEY_SEPARATOR: u8 = 124;

/// Byte that separates the groups of a uuid's text.
pub const HYPHEN: u8 = 45;

/// `10` to the power `n`.
pub open spec fn pow10(n: nat) -> nat
    decreases n,
{
    if n == 0 {
        1
    } else {
        10 * pow10((n - 1) as nat)
    }
}

/// The ASCII byte of the decimal digit `d`.
pub open spec fn digit_byte(d: nat) -> u8 {
    (48 + d) as u8
}

pub open spec fn is_digit(b: u8) -> bool {
    48 <= b && b <= 57
}

/// The `w` lowest decimal digits of `n`, most significant first, in ASCII.
pub open spec fn decimal(n: nat, w: nat) -> Seq<u8>
    decreases w,
{
    if w == 0 {
        seq![]
    } else {
        decimal(n / 10, (w - 1) as nat).push(digit_byte(n % 10))
    }
}

/// The number that a string of ASCII decimal digits denotes.
pub open spec fn decimal_value(s: Seq<u8>) -> nat
    decreases s.len(),
{
    if s.len() == 0 {
        0
    } else {
        decimal_value(s.drop_last()) * 10 + (s.last() - 48) as nat
    }
}

/// The ASCII byte of the lowercase hexadecimal digit `d`.
pub open spec fn hex_byte(d: nat) -> u8 {
    if d < 10 {
        (48 + d) as u8
    } else {
        (87 + d) as u8
    }
}

/// The `w` lowest hexadecimal digits of `n`, most significant first.
pub open spec fn hex(n: nat, w: nat) -> Seq<u8>
    decreases w,
{
    if w == 0 {
        seq![]
    } else {
        hex(n / 16, (w - 1) as nat).push(hex_byte(n % 16))
    }
}

/// The canonical text of a uuid: 32 lowercase hex digits of its big-endian
/// value, grouped 8-4-4-4-12 and joined by hyphens.
pub open spec fn uuid_text(id: u128) -> Seq<u8> {
    let h = hex(id as nat, 32);
    h.subrange(0, 8) + seq![HYPHEN] + h.subrange(8, 12) + seq![HYPHEN] + h.subrange(12, 16)
        + seq![HYPHEN] + h.subrange(16, 20) + seq![HYPHEN] + h.subrange(20, 32)
}

/// The key under which the event with this time and id is stored.
pub open spec fn log_key(time: u128, id: u128) -> Seq<u8> {
    decimal(time as nat, TIME_DIGITS as nat) + seq![KEY_SEPARATOR] + uuid_text(id)
}

/// `k` is a key for `(time, id)` whose time field has some width from 1 to 39
/// digits (leading zeros allowed): the form that `parse_key` accepts.
pub open spec fn key_denotes(k: Seq<u8>, time: u128, id: u128) -> bool {
    exists|w: nat|
        1 <= w <= TIME_DIGITS && time < pow10(w) && k == #[trigger] decimal(time as nat, w)
            + seq![KEY_SEPARATOR] + uuid_text(id)
}

/// Bytewise lexicographic order, the order in which the store keeps keys.
pub open spec fn bytes_before(a: Seq<u8>, b: Seq<u8>) -> bool
    decreases a.len(),
{
    if a.len() == 0 {
        b.len() > 0
    } else if b.len() == 0 {
        false
    } else if a[0] != b[0] {
        a[0] < b[0]
    } else {
        bytes_before(a.drop_first(), b.drop_first())
    }
}

/// The order of events: by time, then by the text of the id.
pub open spec fn event_before(t1: u128, i1: u128, t2: u128, i2: u128) -> bool {
    t1 < t2 || (t1 == t2 && bytes_before(uuid_text(i1), uuid_text(i2)))
}

// ---------------------------------------------------------------------------
// Trusted calls into uuid
/// Relies on `uuid::Uuid::from_u128` and uuid's `Display`, which writes the
/// lowercase hyphenated form of the big-endian value.
#[verifier::external_body]
fn uuid_bytes(id: u128) -> (r: Vec<u8>)
    ensures
        r@ == uuid_text(id),
{
    uuid::Uuid::from_u128(id).to_hyphenated().to_string().into_bytes()
}

/// Relies on `uuid::Uuid::parse_str` and `as_u128`: the hyphenated text of a
/// uuid parses back to it.
#[verifier::external_body]
fn parse_uuid(text: &[u8]) -> (r: Option<u128>)
    ensures
        forall|id: u128| text@ == #[trigger] uuid_text(id) ==> r == Some(id),
{
    match std::str::from_utf8(text) {
        Ok(s) => match uuid::Uuid::parse_str(s) {
            Ok(u) => Some(u.as_u128()),
            Err(_) => None,
        },
        Err(_) => None,
    }
}

// ---------------------------------------------------------------------------
// Lemmas on decimal digits
pub proof fn lemma_decimal_len(n: nat, w: nat)
    ensures
        decimal(n, w).len() == w,
    decreases w,
{
    if w > 0 {
        lemma_decimal_len(n / 10, (w - 1) as nat);
    }
}

pub proof fn lemma_decimal_digits(n: nat, w: nat)
    ensures
        forall|j: int| 0 <= j < w ==> is_digit(#[trigger] decimal(n, w)[j]),
    decreases w,
{
    lemma_decimal_len(n, w);
    if w > 0 {
        lemma_decimal_digits(n / 10, (w - 1) as nat);
        lemma_decimal_len(n / 10, (w - 1) as nat);
    }
}

pub proof fn lemma_pow10_positive(n: nat)
    ensures
        pow10(n) >= 1,
    decreases n,
{
    if n > 0 {
        lemma_pow10_positive((n - 1) as nat);
    }
}

/// Padded digits read back as the number they were written from.
pub proof fn lemma_decimal_value(n: nat, w: nat)
    requires
        n < pow10(w),
    ensures
        decimal_value(decimal(n, w)) == n,
    decreases w,
{
    if w == 0 {
    } else {
        let p = pow10((w - 1) as nat);
        assert(n / 10 < p) by (nonlinear_arith)
            requires
                n < 10 * p,
        ;
        lemma_decimal_value(n / 10, (w - 1) as nat);
        let s = decimal(n, w);
        assert(s.drop_last() == decimal(n / 10, (w - 1) as nat));
        assert((n / 10) * 10 + n % 10 == n) by (nonlinear_arith);
    }
}

/// A string of digits is the padded form of the number it denotes.
pub proof fn lemma_decimal_of_value(s: Seq<u8>)
    requires
        forall|j: int| 0 <= j < s.len() ==> is_digit(#[trigger] s[j]),
    ensures
        decimal_value(s) < pow10(s.len()),
        decimal(decimal_value(s), s.len()) == s,
    decreases s.len(),
{
    if s.len() > 0 {
        let t = s.drop_last();
        assert forall|j: int| 0 <= j < t.len() implies is_digit(#[trigger] t[j]) by {
            assert(t[j] == s[j]);
        }
        lemma_decimal_of_value(t);
        let v = decimal_value(t);
        let d = (s.last() - 48) as nat;
        assert(is_digit(s[s.len() - 1]));
        assert(d < 10);
        let n = v * 10 + d;
        assert(n / 10 == v && n % 10 == d) by (nonlinear_arith)
            requires
                n == v * 10 + d,
                d < 10,
        ;
        let p = pow10(t.len());
        assert(n < 10 * p) by (nonlinear_arith)
            requires
                n == v * 10 + d,
                d < 10,
                v < p,
        ;
        assert(decimal(n, s.len()) == t.push(digit_byte(d)));
        assert(t.push(digit_byte(d)) =~= s);
    }
}

/// Two padded forms of one width are equal only for one number.
pub proof fn lemma_decimal_injective(n1: nat, n2: nat, w: nat)
    requires
        n1 < pow10(w),
        n2 < pow10(w),
        decimal(n1, w) == decimal(n2, w),
    ensures
        n1 == n2,
{
    lemma_decimal_value(n1, w);
    lemma_decimal_value(n2, w);
}

pub proof fn lemma_before_asymmetric(a: Seq<u8>, b: Seq<u8>)
    requires
        bytes_before(a, b),
    ensures
        !bytes_before(b, a),
    decreases a.len(),
{
    if a.len() > 0 && b.len() > 0 && a[0] == b[0] {
        lemma_before_asymmetric(a.drop_first(), b.drop_first());
    }
}

pub proof fn lemma_before_transitive(a: Seq<u8>, b: Seq<u8>, c: Seq<u8>)
    requires
        bytes_before(a, b),
        bytes_before(b, c),
    ensures
        bytes_before(a, c),
    decreases a.len(),
{
    if a.len() > 0 && b.len() > 0 && c.len() > 0 && a[0] == b[0] && b[0] == c[0] {
        lemma_before_transitive(a.drop_first(), b.drop_first(), c.drop_first());
    }
}

/// A common prefix does not change which of two sequences comes first.
pub proof fn lemma_before_common_prefix(p: Seq<u8>, a: Seq<u8>, b: Seq<u8>)
    ensures
        bytes_before(p + a, p + b) == bytes_before(a, b),
    decreases p.len(),
{
    if p.len() > 0 {
        lemma_before_common_prefix(p.drop_first(), a, b);
        assert((p + a).drop_first() =~= p.drop_first() + a);
        assert((p + b).drop_first() =~= p.drop_first() + b);
    } else {
        assert(p + a =~= a);
        assert(p + b =~= b);
    }
}

/// Between sequences of one length, what follows them does not change which
/// of the two comes first.
pub proof fn lemma_before_same_length_extend(a: Seq<u8>, b: Seq<u8>, x: Seq<u8>, y: Seq<u8>)
    requires
        a.len() == b.len(),
        bytes_before(a, b),
    ensures
        bytes_before(a + x, b + y),
    decreases a.len(),
{
    if a.len() > 0 {
        assert((a + x).drop_first() =~= a.drop_first() + x);
        assert((b + y).drop_first() =~= b.drop_first() + y);
        if a[0] == b[0] {
            lemma_before_same_length_extend(a.drop_first(), b.drop_first(), x, y);
        }
    }
}

/// Padded digits of one width sort as the numbers do.
pub proof fn lemma_decimal_order(n1: nat, n2: nat, w: nat)
    requires
        n1 < n2,
        n2 < pow10(w),
    ensures
        bytes_before(decimal(n1, w), decimal(n2, w)),
    decreases w,
{
    lemma_pow10_positive(w);
    if w == 0 {
    } else {
        let p = pow10((w - 1) as nat);
        assert(n2 / 10 < p) by (nonlinear_arith)
            requires
                n2 < 10 * p,
        ;
        assert(n1 / 10 <= n2 / 10) by (nonlinear_arith)
            requires
                n1 < n2,
        ;
        let a = decimal(n1 / 10, (w - 1) as nat);
        let b = decimal(n2 / 10, (w - 1) as nat);
        lemma_decimal_len(n1 / 10, (w - 1) as nat);
        lemma_decimal_len(n2 / 10, (w - 1) as nat);
        let x = seq![digit_byte(n1 % 10)];
        let y = seq![digit_byte(n2 % 10)];
        assert(decimal(n1, w) =~= a + x);
        assert(decimal(n2, w) =~= b + y);
        if n1 / 10 < n2 / 10 {
            lemma_decimal_order(n1 / 10, n2 / 10, (w - 1) as nat);
            lemma_before_same_length_extend(a, b, x, y);
        } else {
            assert(n1 % 10 < n2 % 10) by (nonlinear_arith)
                requires
                    n1 < n2,
                    n1 / 10 == n2 / 10,
            ;
            lemma_before_common_prefix(a, x, y);
            assert(x.drop_first() =~= y.drop_first());
        }
    }
}

pub proof fn lemma_u128_fits_time_digits(t: u128)
    ensures
        (t as nat) < pow10(TIME_DIGITS as nat),
{
    reveal_with_fuel(pow10, 40);
    assert(pow10(TIME_DIGITS as nat) == 1000000000000000000000000000000000000000nat);
}

// ---------------------------------------------------------------------------
// Laws of keys
/// Keys sort as the events they stand for: by time, then by the text of the
/// id. So a scan in key order meets events in chronological order.
pub proof fn key_order_follows_events(t1: u128, i1: u128, t2: u128, i2: u128)
    ensures
        bytes_before(log_key(t1, i1), log_key(t2, i2)) == event_before(t1, i1, t2, i2),
{
    let w = TIME_DIGITS as nat;
    let d1 = decimal(t1 as nat, w);
    let d2 = decimal(t2 as nat, w);
    let r1 = seq![KEY_SEPARATOR] + uuid_text(i1);
    let r2 = seq![KEY_SEPARATOR] + uuid_text(i2);
    assert(log_key(t1, i1) == d1 + r1) by {
        assert(log_key(t1, i1) =~= d1 + r1);
    }
    assert(log_key(t2, i2) == d2 + r2) by {
        assert(log_key(t2, i2) =~= d2 + r2);
    }
    lemma_decimal_len(t1 as nat, w);
    lemma_decimal_len(t2 as nat, w);
    lemma_u128_fits_time_digits(t1);
    lemma_u128_fits_time_digits(t2);
    if t1 < t2 {
        lemma_decimal_order(t1 as nat, t2 as nat, w);
        lemma_before_same_length_extend(d1, d2, r1, r2);
    } else if t2 < t1 {
        lemma_decimal_order(t2 as nat, t1 as nat, w);
        lemma_before_same_length_extend(d2, d1, r2, r1);
        lemma_before_asymmetric(d2 + r2, d1 + r1);
    } else {
        lemma_before_common_prefix(d1, r1, r2);
        lemma_before_common_prefix(seq![KEY_SEPARATOR], uuid_text(i1), uuid_text(i2));
    }
}

// ---------------------------------------------------------------------------
// Executable codec
/// Appends the `w` lowest decimal digits of `n`.
fn push_decimal(out: &mut Vec<u8>, n: u128, w: usize)
    ensures
        final(out)@ == old(out)@ + decimal(n as nat, w as nat),
    decreases w,
{
    if w > 0 {
        push_decimal(out, n / 10, w - 1);
        out.push(48 + (n % 10) as u8);
        proof {
            let a = decimal((n / 10) as nat, (w - 1) as nat);
            assert(old(out)@ + a.push(digit_byte((n % 10) as nat)) =~= (old(out)@ + a).push(
                (48 + (n % 10) as u8) as u8,
            ));
        }
    } else {
        assert(old(out)@ + decimal(n as nat, 0) =~= old(out)@);
    }
}

/// The key under which the event with this time and id is stored.
pub fn create_key(time: u128, id: u128) -> (r: Vec<u8>)
    ensures
        r@ == log_key(time, id),
{
    let mut key: Vec<u8> = Vec::new();
    push_decimal(&mut key, time, TIME_DIGITS);
    key.push(KEY_SEPARATOR);
    let text = uuid_bytes(id);
    let mut i: usize = 0;
    while i < text.len()
        invariant
            0 <= i <= text@.len(),
            text@ == uuid_text(id),
            key@ == decimal(time as nat, TIME_DIGITS as nat) + seq![KEY_SEPARATOR]
                + text@.subrange(0, i as int),
        decreases text@.len() - i,
    {
        key.push(text[i]);
        i += 1;
        assert(text@.subrange(0, i as int) =~= text@.subrange(0, i - 1).push(text@[i - 1]));
    }
    assert(text@.subrange(0, i as int) =~= text@);
    key
}

/// The smallest key of the given time: its id is the nil uuid.
pub fn create_key_after(time: u128) -> (r: Vec<u8>)
    ensures
        r@ == log_key(time, 0),
{
    create_key(time, 0)
}

/// Whether two byte strings are equal.
pub fn bytes_equal(a: &[u8], b: &[u8]) -> (r: bool)
    ensures
        r == (a@ == b@),
{
    if a.len() != b.len() {
        return false;
    }
    let mut i: usize = 0;
    while i < a.len()
        invariant
            a@.len() == b@.len(),
            0 <= i <= a@.len(),
            forall|j: int| 0 <= j < i ==> a@[j] == b@[j],
        decreases a@.len() - i,
    {
        if a[i] != b[i] {
            return false;
        }
        i += 1;
    }
    assert(a@ =~= b@);
    true
}

/// Whether `a` sorts strictly before `b` in the store's bytewise order.
pub fn key_before(a: &[u8], b: &[u8]) -> (r: bool)
    ensures
        r == bytes_before(a@, b@),
{
    let mut i: usize = 0;
    assert(a@.subrange(0, a@.len() as int) =~= a@);
    assert(b@.subrange(0, b@.len() as int) =~= b@);
    while i < a.len() && i < b.len() && a[i] == b[i]
        invariant
            0 <= i <= a@.len(),
            i <= b@.len(),
            bytes_before(a@, b@) == bytes_before(a@.subrange(i as int, a@.len() as int), b@.subrange(i as int, b@.len() as int)),
        decreases a@.len() - i,
    {
        proof {
            let sa = a@.subrange(i as int, a@.len() as int);
            let sb = b@.subrange(i as int, b@.len() as int);
            assert(sa.drop_first() =~= a@.subrange(i + 1, a@.len() as int));
            assert(sb.drop_first() =~= b@.subrange(i + 1, b@.len() as int));
        }
        i += 1;
    }
    if i == a.len() {
        i < b.len()
    } else if i == b.len() {
        false
    } else {
        a[i] < b[i]
    }
}

/// Reads a key back as `(time, id)`. A key is accepted with a time field of
/// 1 to 39 decimal digits, leading zeros allowed, that denotes a `u128`, then
/// `|`, then the canonical text of a uuid; anything else gives `None`.
pub fn parse_key(key: &[u8]) -> (r: Option<(u128, u128)>)
    ensures
        match r {
            Some((time, id)) => key_denotes(key@, time, id),
            None => forall|time: u128, id: u128| !key_denotes(key@, time, id),
        },
{
    let n = key.len();
    let mut p: usize = 0;
    while p < n && key[p] != KEY_SEPARATOR
        invariant
            0 <= p <= n,
            n == key@.len(),
            forall|j: int| 0 <= j < p ==> key@[j] != KEY_SEPARATOR,
        decreases n - p,
    {
        p += 1;
    }
    // From here on, whatever the key denotes has its fields where `p` says.
    proof {
        lemma_denoted_fields(key@, p as nat);
    }
    if p == n || p == 0 || p > TIME_DIGITS {
        return None;
    }
    let mut time: u128 = 0;
    let mut i: usize = 0;
    while i < p
        invariant
            0 <= i <= p,
            p < n,
            n == key@.len(),
            time as nat == decimal_value(key@.subrange(0, i as int)),
            forall|j: int| 0 <= j < i ==> is_digit(#[trigger] key@[j]),
            forall|t: u128, id: u128| #[trigger]
                key_denotes(key@, t, id) ==> key_fields(key@, p as nat, t, id),
        decreases p - i,
    {
        let c = key[i];
        let ghost s1 = key@.subrange(0, i + 1);
        proof {
            assert(s1.drop_last() =~= key@.subrange(0, i as int));
        }
        if c < 48 || c > 57 {
            return None;
        }
        let next = match time.checked_mul(10) {
            Some(m) => m.checked_add((c - 48) as u128),
            None => None,
        };
        match next {
            None => {
                proof {
                    assert(decimal_value(s1) == time * 10 + (c - 48) as nat);
                    lemma_time_field_too_large(key@, p as nat, i as nat);
                }
                return None;
            },
            Some(v) => {
                time = v;
            },
        }
        i += 1;
    }
    if n - p - 1 != 36 {
        return None;
    }
    let tail = slice_subrange(key, p + 1, n);
    proof {
        lemma_decimal_of_value(key@.subrange(0, p as int));
    }
    match parse_uuid(tail) {
        None => None,
        Some(id) => {
            let text = uuid_bytes(id);
            if bytes_equal(text.as_slice(), tail) {
                proof {
                    assert(key@ =~= decimal(time as nat, p as nat) + seq![KEY_SEPARATOR]
                        + uuid_text(id));
                    assert(key_denotes(key@, time, id));
                }
                Some((time, id))
            } else {
                None
            }
        },
    }
}

/// Where the fields of a key for `(time, id)` stand, when its first `|` is at
/// `p`.
spec fn key_fields(k: Seq<u8>, p: nat, time: u128, id: u128) -> bool {
    &&& 1 <= p <= TIME_DIGITS
    &&& k.len() == p + 37
    &&& forall|j: int| 0 <= j < p ==> is_digit(#[trigger] k[j])
    &&& k.subrange(0, p as int) == decimal(time as nat, p)
    &&& time < pow10(p)
    &&& k.subrange(p as int + 1, k.len() as int) == uuid_text(id)
}

/// Whatever a key with its first `|` at `p` denotes has its fields there.
proof fn lemma_denoted_fields(k: Seq<u8>, p: nat)
    requires
        p <= k.len(),
        forall|j: int| 0 <= j < p ==> k[j] != KEY_SEPARATOR,
        p == k.len() || k[p as int] == KEY_SEPARATOR,
    ensures
        forall|t: u128, id: u128| #[trigger] key_denotes(k, t, id) ==> key_fields(k, p, t, id),
{
    assert forall|t: u128, id: u128| #[trigger] key_denotes(k, t, id) implies key_fields(
        k,
        p,
        t,
        id,
    ) by {
        lemma_key_fields(k, p, t, id);
        lemma_uuid_text_len(id);
        lemma_decimal_digits(t as nat, p);
        assert forall|j: int| 0 <= j < p implies is_digit(#[trigger] k[j]) by {
            assert(k.subrange(0, p as int)[j] == k[j]);
        }
    }
}

/// Whatever a key denotes, its separator is the first `|`, the digits
/// before it are the time, and the rest is the text of the id.
proof fn lemma_key_fields(k: Seq<u8>, p: nat, time: u128, id: u128)
    requires
        key_denotes(k, time, id),
        p <= k.len(),
        forall|j: int| 0 <= j < p ==> k[j] != KEY_SEPARATOR,
        p == k.len() || k[p as int] == KEY_SEPARATOR,
    ensures
        1 <= p <= TIME_DIGITS,
        p < k.len(),
        k.subrange(0, p as int) == decimal(time as nat, p),
        time < pow10(p),
        k.subrange(p as int + 1, k.len() as int) == uuid_text(id),
{
    let w = choose|w: nat|
        1 <= w <= TIME_DIGITS && time < pow10(w) && k == #[trigger] decimal(time as nat, w)
            + seq![KEY_SEPARATOR] + uuid_text(id);
    lemma_decimal_len(time as nat, w);
    lemma_decimal_digits(time as nat, w);
    let d = decimal(time as nat, w);
    assert(k[w as int] == KEY_SEPARATOR);
    if p < w {
        assert(k[p as int] == d[p as int]);
        assert(is_digit(d[p as int]));
    }
    if p > w {
        assert(k[w as int] != KEY_SEPARATOR);
    }
    assert(k.subrange(0, p as int) =~= d);
    assert(k.subrange(p as int + 1, k.len() as int) =~= uuid_text(id));
}

pub proof fn lemma_uuid_text_len(id: u128)
    ensures
        uuid_text(id).len() == 36,
{
    lemma_hex_len(id as nat, 32);
}

pub proof fn lemma_hex_len(n: nat, w: nat)
    ensures
        hex(n, w).len() == w,
    decreases w,
{
    if w > 0 {
        lemma_hex_len(n / 16, (w - 1) as nat);
    }
}

/// Once the digits read so far denote more than fits in a `u128` after one
/// more digit, no time field of `p` digits is the form of a `u128`.
proof fn lemma_time_field_too_large(k: Seq<u8>, p: nat, i: nat)
    requires
        i < p <= k.len(),
        forall|j: int| 0 <= j <= i ==> is_digit(#[trigger] k[j]),
        decimal_value(k.subrange(0, (i + 1) as int)) > u128::MAX,
    ensures
        forall|t: u128|
            !(k.subrange(0, p as int) == #[trigger] decimal(t as nat, p) && t < pow10(p)),
{
    assert forall|t: u128|
        !(k.subrange(0, p as int) == #[trigger] decimal(t as nat, p) && t < pow10(p)) by {
        if k.subrange(0, p as int) == decimal(t as nat, p) && t < pow10(p) {
            lemma_decimal_value(t as nat, p);
            lemma_decimal_digits(t as nat, p);
            lemma_decimal_value_prefix(k.subrange(0, p as int), i + 1);
            assert(k.subrange(0, p as int).subrange(0, (i + 1) as int) =~= k.subrange(0, (i + 1) as int));
        }
    }
}

/// The value of digits is at least the value of any of their prefixes.
pub proof fn lemma_decimal_value_prefix(s: Seq<u8>, m: nat)
    requires
        m <= s.len(),
        forall|j: int| 0 <= j < s.len() ==> is_digit(#[trigger] s[j]),
    ensures
        decimal_value(s.subrange(0, m as int)) <= decimal_value(s),
    decreases s.len(),
{
    if m < s.len() {
        let t = s.drop_last();
        assert forall|j: int| 0 <= j < t.len() implies is_digit(#[trigger] t[j]) by {
            assert(t[j] == s[j]);
        }
        lemma_decimal_value_prefix(t, m);
        assert(t.subrange(0, m as int) =~= s.subrange(0, m as int));
        assert(is_digit(s[s.len() - 1]));
        let v = decimal_value(t);
        assert(v <= v * 10) by (nonlinear_arith);
    } else {
        assert(s.subrange(0, m as int) =~= s);
    }
}

// ---------------------------------------------------------------------------
// Laws of the codec
/// `16` to the power `n`.
pub open spec fn pow16(n: nat) -> nat
    decreases n,
{
    if n == 0 {
        1
    } else {
        16 * pow16((n - 1) as nat)
    }
}

proof fn lemma_hex_injective(n1: nat, n2: nat, w: nat)
    requires
        n1 < pow16(w),
        n2 < pow16(w),
        hex(n1, w) == hex(n2, w),
    ensures
        n1 == n2,
    decreases w,
{
    if w > 0 {
        let p = pow16((w - 1) as nat);
        assert(n1 / 16 < p && n2 / 16 < p) by (nonlinear_arith)
            requires
                n1 < 16 * p,
                n2 < 16 * p,
        ;
        let a = hex(n1, w);
        let b = hex(n2, w);
        assert(a.drop_last() == hex(n1 / 16, (w - 1) as nat));
        assert(b.drop_last() == hex(n2 / 16, (w - 1) as nat));
        lemma_hex_injective(n1 / 16, n2 / 16, (w - 1) as nat);
        assert(a.last() == b.last());
        assert(n1 % 16 == n2 % 16);
        assert(n1 == (n1 / 16) * 16 + n1 % 16) by (nonlinear_arith);
        assert(n2 == (n2 / 16) * 16 + n2 % 16) by (nonlinear_arith);
    }
}

/// Different ids have different texts.
pub proof fn lemma_uuid_text_injective(i1: u128, i2: u128)
    requires
        uuid_text(i1) == uuid_text(i2),
    ensures
        i1 == i2,
{
    let h1 = hex(i1 as nat, 32);
    let h2 = hex(i2 as nat, 32);
    lemma_hex_len(i1 as nat, 32);
    lemma_hex_len(i2 as nat, 32);
    let t1 = uuid_text(i1);
    let t2 = uuid_text(i2);
    assert(h1 =~= t1.subrange(0, 8) + t1.subrange(9, 13) + t1.subrange(14, 18) + t1.subrange(
        19,
        23,
    ) + t1.subrange(24, 36));
    assert(h2 =~= t2.subrange(0, 8) + t2.subrange(9, 13) + t2.subrange(14, 18) + t2.subrange(
        19,
        23,
    ) + t2.subrange(24, 36));
    reveal_with_fuel(pow16, 33);
    assert(pow16(32) == 0x1_0000_0000_0000_0000_0000_0000_0000_0000nat);
    lemma_hex_injective(i1 as nat, i2 as nat, 32);
}

/// A created key parses back to the time and id it was made from.
pub proof fn key_round_trip(time: u128, id: u128)
    ensures
        key_denotes(log_key(time, id), time, id),
{
    lemma_u128_fits_time_digits(time);
    assert(log_key(time, id) == decimal(time as nat, TIME_DIGITS as nat) + seq![KEY_SEPARATOR]
        + uuid_text(id));
}

/// A key stands for one event only: what it denotes is unique.
pub proof fn key_denotes_unique(k: Seq<u8>, t1: u128, i1: u128, t2: u128, i2: u128)
    requires
        key_denotes(k, t1, i1),
        key_denotes(k, t2, i2),
    ensures
        t1 == t2,
        i1 == i2,
{
    let w1 = choose|w: nat|
        1 <= w <= TIME_DIGITS && t1 < pow10(w) && k == #[trigger] decimal(t1 as nat, w)
            + seq![KEY_SEPARATOR] + uuid_text(i1);
    lemma_decimal_len(t1 as nat, w1);
    lemma_decimal_digits(t1 as nat, w1);
    assert forall|j: int| 0 <= j < w1 implies k[j] != KEY_SEPARATOR by {
        assert(k[j] == decimal(t1 as nat, w1)[j]);
    }
    assert(k[w1 as int] == KEY_SEPARATOR);
    lemma_key_fields(k, w1, t2, i2);
    lemma_key_fields(k, w1, t1, i1);
    lemma_decimal_injective(t1 as nat, t2 as nat, w1);
    lemma_uuid_text_injective(i1, i2);
}

/// Distinct events have distinct keys, so a lookup by key finds the one event
/// stored under it.
pub proof fn log_key_injective(t1: u128, i1: u128, t2: u128, i2: u128)
    requires
        log_key(t1, i1) == log_key(t2, i2),
    ensures
        t1 == t2,
        i1 == i2,
{
    key_round_trip(t1, i1);
    key_round_trip(t2, i2);
    key_denotes_unique(log_key(t1, i1), t1, i1, t2, i2);
}

// ---------------------------------------------------------------------------
// The text of ids sorts as their values
proof fn lemma_before_total(a: Seq<u8>, b: Seq<u8>)
    requires
        a != b,
        a.len() == b.len(),
    ensures
        bytes_before(a, b) || bytes_before(b, a),
    decreases a.len(),
{
    if a.len() > 0 {
        if a[0] == b[0] {
            if a.drop_first() == b.drop_first() {
                assert(a =~= seq![a[0]] + a.drop_first());
                assert(b =~= seq![b[0]] + b.drop_first());
            }
            lemma_before_total(a.drop_first(), b.drop_first());
        }
    } else {
        assert(a =~= b);
    }
}

/// For pieces of one length followed by anything, the order is the order of
/// the pieces when they differ, and the order of what follows when they do
/// not.
proof fn lemma_before_split(x1: Seq<u8>, x2: Seq<u8>, r1: Seq<u8>, r2: Seq<u8>)
    requires
        x1.len() == x2.len(),
    ensures
        x1 != x2 ==> bytes_before(x1 + r1, x2 + r2) == bytes_before(x1, x2),
        x1 == x2 ==> bytes_before(x1 + r1, x2 + r2) == bytes_before(r1, r2),
{
    if x1 != x2 {
        lemma_before_total(x1, x2);
        if bytes_before(x1, x2) {
            lemma_before_same_length_extend(x1, x2, r1, r2);
        } else {
            lemma_before_same_length_extend(x2, x1, r2, r1);
            lemma_before_asymmetric(x2 + r2, x1 + r1);
        }
    } else {
        lemma_before_common_prefix(x1, r1, r2);
    }
}

/// Hex digits of one width sort as the numbers do.
proof fn lemma_hex_order(n1: nat, n2: nat, w: nat)
    requires
        n1 < n2,
        n2 < pow16(w),
    ensures
        bytes_before(hex(n1, w), hex(n2, w)),
    decreases w,
{
    if w > 0 {
        let p = pow16((w - 1) as nat);
        assert(n2 / 16 < p) by (nonlinear_arith)
            requires
                n2 < 16 * p,
        ;
        assert(n1 / 16 <= n2 / 16) by (nonlinear_arith)
            requires
                n1 < n2,
        ;
        let a = hex(n1 / 16, (w - 1) as nat);
        let b = hex(n2 / 16, (w - 1) as nat);
        lemma_hex_len(n1 / 16, (w - 1) as nat);
        lemma_hex_len(n2 / 16, (w - 1) as nat);
        let x = seq![hex_byte(n1 % 16)];
        let y = seq![hex_byte(n2 % 16)];
        assert(hex(n1, w) =~= a + x);
        assert(hex(n2, w) =~= b + y);
        if n1 / 16 < n2 / 16 {
            lemma_hex_order(n1 / 16, n2 / 16, (w - 1) as nat);
            lemma_before_same_length_extend(a, b, x, y);
        } else {
            assert(n1 % 16 < n2 % 16) by (nonlinear_arith)
                requires
                    n1 < n2,
                    n1 / 16 == n2 / 16,
            ;
            lemma_before_common_prefix(a, x, y);
            assert(x.drop_first() =~= y.drop_first());
        }
    }
}

proof fn lemma_pow16_32()
    ensures
        pow16(32) == 0x1_0000_0000_0000_0000_0000_0000_0000_0000nat,
{
    reveal_with_fuel(pow16, 33);
}

/// The order of the text of two ids is the order of their text without the
/// hyphens, which stand at the same places in both.
proof fn lemma_uuid_text_order_is_hex_order(i1: u128, i2: u128)
    ensures
        bytes_before(uuid_text(i1), uuid_text(i2)) == bytes_before(
            hex(i1 as nat, 32),
            hex(i2 as nat, 32),
        ),
{
    let h1 = hex(i1 as nat, 32);
    let h2 = hex(i2 as nat, 32);
    lemma_hex_len(i1 as nat, 32);
    lemma_hex_len(i2 as nat, 32);
    let a1 = h1.subrange(0, 8);
    let b1 = h1.subrange(8, 12);
    let c1 = h1.subrange(12, 16);
    let d1 = h1.subrange(16, 20);
    let e1 = h1.subrange(20, 32);
    let a2 = h2.subrange(0, 8);
    let b2 = h2.subrange(8, 12);
    let c2 = h2.subrange(12, 16);
    let d2 = h2.subrange(16, 20);
    let e2 = h2.subrange(20, 32);
    let hy = seq![HYPHEN];
    // The text, piece by piece from the right.
    let te1 = hy + e1;
    let td1 = d1 + te1;
    let tc1 = hy + (c1 + (hy + td1));
    let tb1 = b1 + tc1;
    let te2 = hy + e2;
    let td2 = d2 + te2;
    let tc2 = hy + (c2 + (hy + td2));
    let tb2 = b2 + tc2;
    assert(uuid_text(i1) =~= a1 + (hy + tb1));
    assert(uuid_text(i2) =~= a2 + (hy + tb2));
    assert(h1 =~= a1 + (b1 + (c1 + (d1 + e1))));
    assert(h2 =~= a2 + (b2 + (c2 + (d2 + e2))));
    lemma_before_split(a1, a2, hy + tb1, hy + tb2);
    lemma_before_split(a1, a2, b1 + (c1 + (d1 + e1)), b2 + (c2 + (d2 + e2)));
    lemma_before_common_prefix(hy, tb1, tb2);
    lemma_before_split(b1, b2, tc1, tc2);
    lemma_before_split(b1, b2, c1 + (d1 + e1), c2 + (d2 + e2));
    lemma_before_common_prefix(hy, c1 + (hy + td1), c2 + (hy + td2));
    lemma_before_split(c1, c2, hy + td1, hy + td2);
    lemma_before_split(c1, c2, d1 + e1, d2 + e2);
    lemma_before_common_prefix(hy, td1, td2);
    lemma_before_split(d1, d2, te1, te2);
    lemma_before_split(d1, d2, e1, e2);
    lemma_before_common_prefix(hy, e1, e2);
}

/// Ids sort by their text exactly as they do by their value.
pub proof fn uuid_text_order_is_numeric(i1: u128, i2: u128)
    ensures
        bytes_before(uuid_text(i1), uuid_text(i2)) == (i1 < i2),
{
    lemma_uuid_text_order_is_hex_order(i1, i2);
    lemma_pow16_32();
    if i1 < i2 {
        lemma_hex_order(i1 as nat, i2 as nat, 32);
    } else if i2 < i1 {
        lemma_hex_order(i2 as nat, i1 as nat, 32);
        lemma_before_asymmetric(hex(i2 as nat, 32), hex(i1 as nat, 32));
    } else {
        lemma_before_irreflexive(hex(i1 as nat, 32));
    }
}

proof fn lemma_before_irreflexive(a: Seq<u8>)
    ensures
        !bytes_before(a, a),
    decreases a.len(),
{
    if a.len() > 0 {
        lemma_before_irreflexive(a.drop_first());
    }
}

/// Keys sort as the pairs `(time, id)` do, compared as numbers: by time,
/// then by id.
pub proof fn key_order_is_time_then_id(t1: u128, i1: u128, t2: u128, i2: u128)
    ensures
        bytes_before(log_key(t1, i1), log_key(t2, i2)) == (t1 < t2 || (t1 == t2 && i1 < i2)),
{
    key_order_follows_events(t1, i1, t2, i2);
    uuid_text_order_is_numeric(i1, i2);
}

} // verus!
