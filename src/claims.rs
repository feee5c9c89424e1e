//! The claims a session token carries and their JSON text:
//! `{"sid":…,"role":…,"exp":…,"jti":…,"version":…}`, compact, with the
//! fields in that order. Strings escape `"` and `\` with a backslash and
//! control characters as `\u00XX`; numbers are plain decimals. The reader
//! accepts exactly this layout.

use crate::role::ClientRole;
use crate::text::bytes_eq_constant_time;
use vstd::prelude::*;

verus! {

/// What a token asserts: the session it belongs to, the role it grants,
/// its expiry in Unix seconds, its unique id, and the claims layout version.
#[derive(Debug)]
pub struct TokenClaims {
    pub sid: Vec<u8>,
    pub role: ClientRole,
    pub exp: u64,
    pub jti: Vec<u8>,
    pub version: u32,
}

/// The claims as values: session id bytes, role, expiry, unique-id bytes, version.
pub type ClaimsView = (Seq<u8>, ClientRole, u64, Seq<u8>, u32);

impl View for TokenClaims {
    type V = ClaimsView;

    open spec fn view(&self) -> ClaimsView {
        (self.sid@, self.role, self.exp, self.jti@, self.version)
    }
}

pub open spec fn hex_digit(v: u8) -> u8 {
    if v < 10 {
        (48 + v) as u8
    } else {
        (87 + v) as u8
    }
}

pub open spec fn is_hex(b: u8) -> bool {
    (48 <= b && b <= 57) || (97 <= b && b <= 102)
}

pub open spec fn hex_value(b: u8) -> u8 {
    if b <= 57 {
        (b - 48) as u8
    } else {
        (b - 87) as u8
    }
}

pub open spec fn is_digit(b: u8) -> bool {
    48 <= b && b <= 57
}

/// The JSON text of one byte inside a string.
pub open spec fn escape_byte(b: u8) -> Seq<u8> {
    if b == 34 {
        seq![92u8, 34u8]
    } else if b == 92 {
        seq![92u8, 92u8]
    } else if b < 32 {
        seq![92u8, 117u8, 48u8, 48u8, hex_digit(b / 16), hex_digit(b % 16)]
    } else {
        seq![b]
    }
}

/// The JSON text of a byte string, without the quotes.
pub open spec fn escape(s: Seq<u8>) -> Seq<u8>
    decreases s.len(),
{
    if s.len() == 0 {
        Seq::empty()
    } else {
        escape(s.drop_last()) + escape_byte(s.last())
    }
}

/// A quoted JSON string.
pub open spec fn quoted(s: Seq<u8>) -> Seq<u8> {
    seq![34u8] + escape(s) + seq![34u8]
}

/// The decimal digits of a number, most significant first.
pub open spec fn decimal(n: nat) -> Seq<u8>
    decreases n,
{
    if n < 10 {
        seq![(48 + n) as u8]
    } else {
        decimal(n / 10) + seq![(48 + n % 10) as u8]
    }
}

/// The number a run of decimal digits denotes.
pub open spec fn digits_value(ds: Seq<u8>) -> nat
    decreases ds.len(),
{
    if ds.len() == 0 {
        0
    } else {
        digits_value(ds.drop_last()) * 10 + (ds.last() - 48) as nat
    }
}

/// The role names as bytes.
pub open spec fn role_bytes(r: ClientRole) -> Seq<u8> {
    match r {
        ClientRole::Editor => seq![101u8, 100u8, 105u8, 116u8, 111u8, 114u8],
        ClientRole::Viewer => seq![118u8, 105u8, 101u8, 119u8, 101u8, 114u8],
    }
}

pub open spec fn role_of_bytes(b: Seq<u8>) -> Option<ClientRole> {
    if b == role_bytes(ClientRole::Editor) {
        Some(ClientRole::Editor)
    } else if b == role_bytes(ClientRole::Viewer) {
        Some(ClientRole::Viewer)
    } else {
        None
    }
}

/// `{"sid":`
pub open spec fn key_sid() -> Seq<u8> {
    seq![123u8, 34u8, 115u8, 105u8, 100u8, 34u8, 58u8]
}

/// `,"role":`
pub open spec fn key_role() -> Seq<u8> {
    seq![44u8, 34u8, 114u8, 111u8, 108u8, 101u8, 34u8, 58u8]
}

/// `,"exp":`
pub open spec fn key_exp() -> Seq<u8> {
    seq![44u8, 34u8, 101u8, 120u8, 112u8, 34u8, 58u8]
}

/// `,"jti":`
pub open spec fn key_jti() -> Seq<u8> {
    seq![44u8, 34u8, 106u8, 116u8, 105u8, 34u8, 58u8]
}

/// `,"version":`
pub open spec fn key_version() -> Seq<u8> {
    seq![44u8, 34u8, 118u8, 101u8, 114u8, 115u8, 105u8, 111u8, 110u8, 34u8, 58u8]
}

/// `}`
pub open spec fn close_brace() -> Seq<u8> {
    seq![125u8]
}

/// A key followed by a quoted string.
pub open spec fn str_piece(key: Seq<u8>, v: Seq<u8>) -> Seq<u8> {
    key + quoted(v)
}

/// A key followed by a decimal number.
pub open spec fn num_piece(key: Seq<u8>, n: nat) -> Seq<u8> {
    key + decimal(n)
}

/// The JSON text of a set of claims.
pub open spec fn claims_json(c: ClaimsView) -> Seq<u8> {
    str_piece(key_sid(), c.0) + str_piece(key_role(), role_bytes(c.1)) + num_piece(
        key_exp(),
        c.2 as nat,
    ) + str_piece(key_jti(), c.3) + num_piece(key_version(), c.4 as nat) + close_brace()
}

/// Where `k` ends if it stands in `t` at `i`.
pub open spec fn lit_end(t: Seq<u8>, i: int, k: Seq<u8>) -> Option<int> {
    if 0 <= i && i + k.len() <= t.len() && t.subrange(i, i + k.len()) == k {
        Some(i + k.len())
    } else {
        None
    }
}

/// Reads the rest of a string whose opening quote ends before `i`, with
/// `acc` already read: the string and the position after its closing quote.
pub open spec fn scan_str(t: Seq<u8>, i: int, acc: Seq<u8>) -> Option<(Seq<u8>, int)>
    decreases t.len() - i,
{
    if i < 0 || i >= t.len() {
        None
    } else if t[i] == 34 {
        Some((acc, i + 1))
    } else if t[i] == 92 {
        if i + 1 >= t.len() {
            None
        } else if t[i + 1] == 34 || t[i + 1] == 92 {
            scan_str(t, i + 2, acc.push(t[i + 1]))
        } else if t[i + 1] == 117 && i + 5 < t.len() && t[i + 2] == 48 && t[i + 3] == 48
            && is_hex(t[i + 4]) && is_hex(t[i + 5]) && hex_value(t[i + 4]) < 8 {
            scan_str(t, i + 6, acc.push((hex_value(t[i + 4]) * 16 + hex_value(t[i + 5])) as u8))
        } else {
            None
        }
    } else if t[i] < 32 {
        None
    } else {
        scan_str(t, i + 1, acc.push(t[i]))
    }
}

/// Reads a quoted string at `i`.
pub open spec fn read_str(t: Seq<u8>, i: int) -> Option<(Seq<u8>, int)> {
    if 0 <= i < t.len() && t[i] == 34 {
        scan_str(t, i + 1, Seq::empty())
    } else {
        None
    }
}

/// Where the run of digits that starts at `i` ends.
pub open spec fn digit_run_end(t: Seq<u8>, i: int) -> int
    decreases t.len() - i,
{
    if 0 <= i < t.len() && is_digit(t[i]) {
        digit_run_end(t, i + 1)
    } else {
        i
    }
}

/// Reads a decimal number at `i` that fits in 64 bits.
pub open spec fn read_num(t: Seq<u8>, i: int) -> Option<(nat, int)> {
    let j = digit_run_end(t, i);
    if 0 <= i && j > i && digits_value(t.subrange(i, j)) <= u64::MAX {
        Some((digits_value(t.subrange(i, j)), j))
    } else {
        None
    }
}

/// Reads a key and then a quoted string.
#[verifier::opaque]
pub open spec fn str_field(t: Seq<u8>, i: int, key: Seq<u8>) -> Option<(Seq<u8>, int)> {
    match lit_end(t, i, key) {
        None => None,
        Some(j) => read_str(t, j),
    }
}

/// Reads a key and then a decimal number.
#[verifier::opaque]
pub open spec fn num_field(t: Seq<u8>, i: int, key: Seq<u8>) -> Option<(nat, int)> {
    match lit_end(t, i, key) {
        None => None,
        Some(j) => read_num(t, j),
    }
}

/// The claims that a JSON text holds, if it has the layout above.
pub open spec fn parse_claims(t: Seq<u8>) -> Option<ClaimsView> {
    match str_field(t, 0, key_sid()) {
        None => None,
        Some((sid, after_sid)) => match str_field(t, after_sid, key_role()) {
            None => None,
            Some((rb, after_role)) => match role_of_bytes(rb) {
                None => None,
                Some(role) => match num_field(t, after_role, key_exp()) {
                    None => None,
                    Some((exp, after_exp)) => match str_field(t, after_exp, key_jti()) {
                        None => None,
                        Some((jti, after_jti)) => match num_field(t, after_jti, key_version()) {
                            None => None,
                            Some((ver, after_version)) => if ver <= u32::MAX && lit_end(t, after_version, close_brace())
                                == Some(t.len() as int) {
                                Some((sid, role, exp as u64, jti, ver as u32))
                            } else {
                                None
                            },
                        },
                    },
                },
            },
        },
    }
}

proof fn lemma_escape_append(a: Seq<u8>, b: Seq<u8>)
    ensures
        escape(a + b) == escape(a) + escape(b),
    decreases b.len(),
{
    if b.len() == 0 {
        assert(a + b =~= a);
        assert(escape(a) + escape(b) =~= escape(a));
    } else {
        assert((a + b).drop_last() =~= a + b.drop_last());
        assert((a + b).last() == b.last());
        lemma_escape_append(a, b.drop_last());
        assert(escape(a + b) =~= escape(a) + escape(b));
    }
}

proof fn lemma_escape_cons(s: Seq<u8>)
    requires
        s.len() > 0,
    ensures
        escape(s) == escape_byte(s[0]) + escape(s.drop_first()),
{
    let head = seq![s[0]];
    assert(head.drop_last() =~= Seq::<u8>::empty());
    assert(head.last() == s[0]);
    assert(escape(Seq::<u8>::empty()) =~= Seq::<u8>::empty());
    assert(escape(head) =~= escape_byte(s[0]));
    assert(head + s.drop_first() =~= s);
    lemma_escape_append(head, s.drop_first());
}

/// Bytes that a JSON string holds as they are.
pub open spec fn is_plain(b: u8) -> bool {
    b >= 32 && b != 34 && b != 92
}

proof fn lemma_escape_plain(s: Seq<u8>)
    requires
        forall|i: int| 0 <= i < s.len() ==> is_plain(#[trigger] s[i]),
    ensures
        escape(s) == s,
    decreases s.len(),
{
    if s.len() > 0 {
        lemma_escape_plain(s.drop_last());
        assert(is_plain(s[s.len() - 1]));
        assert(escape(s) =~= s);
    }
}

proof fn lemma_scan_escaped(t: Seq<u8>, i: int, acc: Seq<u8>, s: Seq<u8>)
    requires
        0 <= i,
        i + escape(s).len() + 1 <= t.len(),
        t.subrange(i, i + escape(s).len()) == escape(s),
        t[i + escape(s).len()] == 34,
    ensures
        scan_str(t, i, acc) == Some((acc + s, i + escape(s).len() + 1)),
    decreases s.len(),
{
    if s.len() == 0 {
        assert(acc + s =~= acc);
    } else {
        let c = s[0];
        let rest = s.drop_first();
        lemma_escape_cons(s);
        let e = escape_byte(c);
        let n = e.len();
        let whole = t.subrange(i, i + escape(s).len());
        assert(whole == e + escape(rest));
        assert(t.subrange(i + n, i + n + escape(rest).len()) =~= escape(rest)) by {
            assert forall|k: int| 0 <= k < escape(rest).len() implies t[i + n + k] == escape(
                rest,
            )[k] by {
                assert(t.subrange(i, i + escape(s).len())[n + k] == t[i + n + k]);
            }
        }
        lemma_scan_escaped(t, i + n, acc.push(c), rest);
        assert(acc.push(c) + rest =~= acc + s);
        assert(whole[0] == t[i] && whole[0] == e[0]);
        if c == 34 || c == 92 {
            assert(whole[1] == t[i + 1] && whole[1] == e[1]);
            assert(t[i] == 92 && t[i + 1] == c);
        } else if c < 32 {
            assert(whole[1] == t[i + 1] && whole[1] == e[1]);
            assert(whole[2] == t[i + 2] && whole[2] == e[2]);
            assert(whole[3] == t[i + 3] && whole[3] == e[3]);
            assert(whole[4] == t[i + 4] && whole[4] == e[4]);
            assert(whole[5] == t[i + 5] && whole[5] == e[5]);
            assert(t[i] == 92 && t[i + 1] == 117 && t[i + 2] == 48 && t[i + 3] == 48);
            assert(t[i + 4] == hex_digit(c / 16) && t[i + 5] == hex_digit(c % 16));
            assert(c / 16 < 2);
            assert(hex_value(hex_digit(c / 16)) == c / 16);
            assert(hex_value(hex_digit(c % 16)) == c % 16);
            assert(((c / 16) * 16 + c % 16) as u8 == c);
        } else {
            assert(e =~= seq![c]);
            assert(t[i] == c);
        }
    }
}

proof fn lemma_decimal(n: nat)
    ensures
        decimal(n).len() >= 1,
        forall|k: int| 0 <= k < decimal(n).len() ==> is_digit(#[trigger] decimal(n)[k]),
        digits_value(decimal(n)) == n,
    decreases n,
{
    if n >= 10 {
        lemma_decimal(n / 10);
        let d = decimal(n);
        assert(d.drop_last() =~= decimal(n / 10));
        assert forall|k: int| 0 <= k < decimal(n).len() implies is_digit(#[trigger] decimal(n)[k]) by {
            if k < decimal(n / 10).len() {
                assert(decimal(n)[k] == decimal(n / 10)[k]);
            }
        }
        assert(d.last() == (48 + n % 10) as u8);
        assert(digits_value(d) == digits_value(decimal(n / 10)) * 10 + n % 10);
        assert((n / 10) * 10 + n % 10 == n);
    } else {
        let d = decimal(n);
        assert(d.drop_last() =~= Seq::<u8>::empty());
        assert(digits_value(Seq::<u8>::empty()) == 0);
        assert(d.last() == (48 + n) as u8);
    }
}

proof fn lemma_digit_run(t: Seq<u8>, i: int, k: int)
    requires
        0 <= i,
        0 <= k,
        i + k <= t.len(),
        forall|j: int| i <= j < i + k ==> is_digit(#[trigger] t[j]),
        i + k == t.len() || !is_digit(t[i + k]),
    ensures
        digit_run_end(t, i) == i + k,
    decreases k,
{
    if k > 0 {
        lemma_digit_run(t, i + 1, k - 1);
    }
}

proof fn lemma_read_decimal(t: Seq<u8>, i: int, n: nat)
    requires
        0 <= i,
        n <= u64::MAX,
        i + decimal(n).len() < t.len(),
        t.subrange(i, i + decimal(n).len()) == decimal(n),
        !is_digit(t[i + decimal(n).len()]),
    ensures
        read_num(t, i) == Some((n, i + decimal(n).len())),
{
    lemma_decimal(n);
    let d = decimal(n);
    assert forall|j: int| i <= j < i + d.len() implies is_digit(#[trigger] t[j]) by {
        assert(t.subrange(i, i + d.len())[j - i] == t[j]);
    }
    lemma_digit_run(t, i, d.len() as int);
}

proof fn lemma_read_quoted(t: Seq<u8>, i: int, s: Seq<u8>)
    requires
        0 <= i,
        i + quoted(s).len() <= t.len(),
        t.subrange(i, i + quoted(s).len()) == quoted(s),
    ensures
        read_str(t, i) == Some((s, i + quoted(s).len())),
{
    let e = escape(s);
    assert(t.subrange(i, i + quoted(s).len())[0] == t[i]);
    assert(t.subrange(i, i + quoted(s).len())[e.len() as int + 1] == t[i + 1 + e.len()]);
    assert(t.subrange(i + 1, i + 1 + e.len()) =~= e) by {
        assert forall|k: int| 0 <= k < e.len() implies t[i + 1 + k] == e[k] by {
            assert(t.subrange(i, i + quoted(s).len())[1 + k] == t[i + 1 + k]);
        }
    }
    lemma_scan_escaped(t, i + 1, Seq::empty(), s);
    assert(Seq::<u8>::empty() + s =~= s);
}

proof fn lemma_piece(t: Seq<u8>, a: Seq<u8>, b: Seq<u8>)
    requires
        (a + b).len() <= t.len(),
        t.subrange(0, (a + b).len() as int) == a + b,
    ensures
        t.subrange(0, a.len() as int) == a,
        t.subrange(a.len() as int, (a + b).len() as int) == b,
{
    assert(t.subrange(0, a.len() as int) =~= a) by {
        assert forall|k: int| 0 <= k < a.len() implies t[k] == a[k] by {
            assert(t.subrange(0, (a + b).len() as int)[k] == t[k]);
        }
    }
    assert(t.subrange(a.len() as int, (a + b).len() as int) =~= b) by {
        assert forall|k: int| 0 <= k < b.len() implies t[a.len() + k] == b[k] by {
            assert(t.subrange(0, (a + b).len() as int)[a.len() + k] == t[a.len() + k]);
        }
    }
}

proof fn lemma_str_field(t: Seq<u8>, i: int, key: Seq<u8>, v: Seq<u8>)
    requires
        0 <= i,
        i + str_piece(key, v).len() <= t.len(),
        t.subrange(i, i + str_piece(key, v).len()) == str_piece(key, v),
    ensures
        str_field(t, i, key) == Some((v, i + str_piece(key, v).len())),
{
    reveal(str_field);
    let w = t.subrange(i, t.len() as int);
    let piece = str_piece(key, v);
    assert(w.subrange(0, piece.len() as int) =~= piece);
    lemma_piece(w, key, quoted(v));
    assert(t.subrange(i, i + key.len()) =~= key);
    assert(t.subrange(i + key.len(), i + piece.len()) =~= quoted(v)) by {
        assert(w.subrange(key.len() as int, piece.len() as int) == quoted(v));
    }
    lemma_read_quoted(t, i + key.len(), v);
}

proof fn lemma_num_field(t: Seq<u8>, i: int, key: Seq<u8>, n: nat)
    requires
        0 <= i,
        n <= u64::MAX,
        i + num_piece(key, n).len() < t.len(),
        t.subrange(i, i + num_piece(key, n).len()) == num_piece(key, n),
        !is_digit(t[i + num_piece(key, n).len()]),
    ensures
        num_field(t, i, key) == Some((n, i + num_piece(key, n).len())),
{
    reveal(num_field);
    let w = t.subrange(i, t.len() as int);
    let piece = num_piece(key, n);
    assert(w.subrange(0, piece.len() as int) =~= piece);
    lemma_piece(w, key, decimal(n));
    assert(t.subrange(i, i + key.len()) =~= key);
    assert(t.subrange(i + key.len(), i + piece.len()) =~= decimal(n)) by {
        assert(w.subrange(key.len() as int, piece.len() as int) == decimal(n));
    }
    lemma_read_decimal(t, i + key.len(), n);
}

/// Reading the JSON text of any claims gives those claims back.
pub proof fn lemma_parse_claims_json(c: ClaimsView)
    ensures
        parse_claims(claims_json(c)) == Some(c),
{
    let t = claims_json(c);
    let rb = role_bytes(c.1);
    let f1 = str_piece(key_sid(), c.0);
    let f2 = str_piece(key_role(), rb);
    let f3 = num_piece(key_exp(), c.2 as nat);
    let f4 = str_piece(key_jti(), c.3);
    let f5 = num_piece(key_version(), c.4 as nat);
    let s2 = f1 + f2;
    let s3 = s2 + f3;
    let s4 = s3 + f4;
    let s5 = s4 + f5;
    assert(t == s5 + close_brace());
    assert(t.subrange(0, t.len() as int) =~= t);
    lemma_piece(t, s5, close_brace());
    lemma_piece(t, s4, f5);
    lemma_piece(t, s3, f4);
    lemma_piece(t, s2, f3);
    lemma_piece(t, f1, f2);
    assert(t.subrange(0, f1.len() as int) == f1);
    assert(t.subrange(s5.len() as int, t.len() as int)[0] == t[s5.len() as int]);
    assert(t.subrange(s4.len() as int, s5.len() as int)[0] == t[s4.len() as int]);
    assert(t.subrange(s3.len() as int, s4.len() as int)[0] == t[s3.len() as int]);
    lemma_str_field(t, 0, key_sid(), c.0);
    lemma_escape_plain(rb);
    lemma_str_field(t, f1.len() as int, key_role(), rb);
    lemma_num_field(t, s2.len() as int, key_exp(), c.2 as nat);
    lemma_str_field(t, s3.len() as int, key_jti(), c.3);
    lemma_num_field(t, s4.len() as int, key_version(), c.4 as nat);
    assert(role_of_bytes(rb) == Some(c.1));
    assert(lit_end(t, s5.len() as int, close_brace()) == Some(t.len() as int));
}

/// Appends `s` to `out`.
pub fn push_bytes(out: &mut Vec<u8>, s: &[u8])
    ensures
        final(out)@ == old(out)@ + s@,
{
    let mut k: usize = 0;
    while k < s.len()
        invariant
            k <= s@.len(),
            out@ == old(out)@ + s@.subrange(0, k as int),
        decreases s@.len() - k,
    {
        out.push(s[k]);
        k += 1;
        assert(out@ =~= old(out)@ + s@.subrange(0, k as int));
    }
    assert(s@.subrange(0, s@.len() as int) =~= s@);
}

fn hex_digit_of(v: u8) -> (r: u8)
    requires
        v < 16,
    ensures
        r == hex_digit(v),
{
    if v < 10 {
        48 + v
    } else {
        87 + v
    }
}

/// Appends the JSON text of the bytes of a string, without quotes.
fn push_escaped(out: &mut Vec<u8>, s: &[u8])
    ensures
        final(out)@ == old(out)@ + escape(s@),
{
    let mut k: usize = 0;
    while k < s.len()
        invariant
            k <= s@.len(),
            out@ == old(out)@ + escape(s@.subrange(0, k as int)),
        decreases s@.len() - k,
    {
        let b = s[k];
        let ghost before = out@;
        if b == 34 {
            out.push(92);
            out.push(34);
        } else if b == 92 {
            out.push(92);
            out.push(92);
        } else if b < 32 {
            out.push(92);
            out.push(117);
            out.push(48);
            out.push(48);
            out.push(hex_digit_of(b / 16));
            out.push(hex_digit_of(b % 16));
        } else {
            out.push(b);
        }
        assert(out@ =~= before + escape_byte(b));
        assert(s@.subrange(0, k + 1).drop_last() =~= s@.subrange(0, k as int));
        k += 1;
        assert(out@ =~= old(out)@ + escape(s@.subrange(0, k as int)));
    }
    assert(s@.subrange(0, s@.len() as int) =~= s@);
}

fn push_quoted(out: &mut Vec<u8>, s: &[u8])
    ensures
        final(out)@ == old(out)@ + quoted(s@),
{
    out.push(34);
    push_escaped(out, s);
    out.push(34);
    assert(out@ =~= old(out)@ + quoted(s@));
}

fn push_decimal(out: &mut Vec<u8>, n: u64)
    ensures
        final(out)@ == old(out)@ + decimal(n as nat),
    decreases n,
{
    if n >= 10 {
        push_decimal(out, n / 10);
    }
    out.push((48 + n % 10) as u8);
    assert(out@ =~= old(out)@ + decimal(n as nat));
}

fn key_sid_bytes() -> (r: Vec<u8>)
    ensures
        r@ == key_sid(),
{
    let r = vec![123u8, 34, 115, 105, 100, 34, 58];
    assert(r@ =~= key_sid());
    r
}

fn key_role_bytes() -> (r: Vec<u8>)
    ensures
        r@ == key_role(),
{
    let r = vec![44u8, 34, 114, 111, 108, 101, 34, 58];
    assert(r@ =~= key_role());
    r
}

fn key_exp_bytes() -> (r: Vec<u8>)
    ensures
        r@ == key_exp(),
{
    let r = vec![44u8, 34, 101, 120, 112, 34, 58];
    assert(r@ =~= key_exp());
    r
}

fn key_jti_bytes() -> (r: Vec<u8>)
    ensures
        r@ == key_jti(),
{
    let r = vec![44u8, 34, 106, 116, 105, 34, 58];
    assert(r@ =~= key_jti());
    r
}

fn key_version_bytes() -> (r: Vec<u8>)
    ensures
        r@ == key_version(),
{
    let r = vec![44u8, 34, 118, 101, 114, 115, 105, 111, 110, 34, 58];
    assert(r@ =~= key_version());
    r
}

fn close_brace_bytes() -> (r: Vec<u8>)
    ensures
        r@ == close_brace(),
{
    let r = vec![125u8];
    assert(r@ =~= close_brace());
    r
}

/// The bytes of a role's name.
pub fn role_name_bytes(role: ClientRole) -> (r: Vec<u8>)
    ensures
        r@ == role_bytes(role),
{
    let r = match role {
        ClientRole::Editor => vec![101u8, 100, 105, 116, 111, 114],
        ClientRole::Viewer => vec![118u8, 105, 101, 119, 101, 114],
    };
    assert(r@ =~= role_bytes(role));
    r
}

/// The JSON text of a set of claims.
pub fn encode_claims(c: &TokenClaims) -> (r: Vec<u8>)
    ensures
        r@ == claims_json(c@),
{
    let mut out: Vec<u8> = Vec::new();
    push_bytes(&mut out, key_sid_bytes().as_slice());
    push_quoted(&mut out, c.sid.as_slice());
    push_bytes(&mut out, key_role_bytes().as_slice());
    push_quoted(&mut out, role_name_bytes(c.role).as_slice());
    push_bytes(&mut out, key_exp_bytes().as_slice());
    push_decimal(&mut out, c.exp);
    push_bytes(&mut out, key_jti_bytes().as_slice());
    push_quoted(&mut out, c.jti.as_slice());
    push_bytes(&mut out, key_version_bytes().as_slice());
    push_decimal(&mut out, c.version as u64);
    push_bytes(&mut out, close_brace_bytes().as_slice());
    assert(out@ =~= claims_json(c@));
    out
}

fn expect_lit(t: &[u8], i: usize, k: &[u8]) -> (r: Option<usize>)
    ensures
        match r {
            None => lit_end(t@, i as int, k@) is None,
            Some(j) => lit_end(t@, i as int, k@) == Some(j as int),
        },
{
    if i > t.len() || t.len() - i < k.len() {
        return None;
    }
    let mut m: usize = 0;
    while m < k.len()
        invariant
            i + k@.len() <= t@.len(),
            t@.len() == t.len(),
            m <= k@.len(),
            forall|x: int| 0 <= x < m ==> t@[i + x] == k@[x],
        decreases k@.len() - m,
    {
        if t[i + m] != k[m] {
            assert(t@.subrange(i as int, i + k@.len())[m as int] == t@[i + m]);
            return None;
        }
        m += 1;
    }
    assert(t@.subrange(i as int, i + k@.len()) =~= k@);
    Some(i + k.len())
}

fn hex_value_of(b: u8) -> (r: u8)
    requires
        is_hex(b),
    ensures
        r == hex_value(b),
{
    if b <= 57 {
        b - 48
    } else {
        b - 87
    }
}

fn is_hex_byte(b: u8) -> (r: bool)
    ensures
        r == is_hex(b),
{
    (48 <= b && b <= 57) || (97 <= b && b <= 102)
}

fn read_string(t: &[u8], i: usize) -> (r: Option<(Vec<u8>, usize)>)
    ensures
        match r {
            None => read_str(t@, i as int) is None,
            Some((v, j)) => read_str(t@, i as int) == Some((v@, j as int)),
        },
{
    if i >= t.len() || t[i] != 34 {
        return None;
    }
    let mut acc: Vec<u8> = Vec::new();
    let mut k: usize = i + 1;
    while k < t.len()
        invariant
            i < k <= t@.len(),
            scan_str(t@, k as int, acc@) == read_str(t@, i as int),
        decreases t@.len() - k,
    {
        let b = t[k];
        if b == 34 {
            return Some((acc, k + 1));
        } else if b == 92 {
            if t.len() - k < 2 {
                return None;
            }
            let c = t[k + 1];
            if c == 34 || c == 92 {
                acc.push(c);
                k += 2;
            } else if c == 117 && t.len() - k > 5 && t[k + 2] == 48 && t[k + 3] == 48
                && is_hex_byte(t[k + 4]) && is_hex_byte(t[k + 5]) && hex_value_of(t[k + 4]) < 8 {
                let v = hex_value_of(t[k + 4]) * 16 + hex_value_of(t[k + 5]);
                acc.push(v);
                k += 6;
            } else {
                return None;
            }
        } else if b < 32 {
            return None;
        } else {
            acc.push(b);
            k += 1;
        }
    }
    None
}

proof fn lemma_digits_mono(t: Seq<u8>, i: int, a: int, b: int)
    requires
        0 <= i <= a <= b <= t.len(),
        forall|x: int| i <= x < b ==> is_digit(#[trigger] t[x]),
    ensures
        digits_value(t.subrange(i, a)) <= digits_value(t.subrange(i, b)),
    decreases b - a,
{
    if a < b {
        lemma_digits_mono(t, i, a, b - 1);
        assert(t.subrange(i, b).drop_last() =~= t.subrange(i, b - 1));
    }
}

fn read_number(t: &[u8], i: usize) -> (r: Option<(u64, usize)>)
    ensures
        match r {
            None => read_num(t@, i as int) is None,
            Some((v, j)) => read_num(t@, i as int) == Some((v as nat, j as int)),
        },
{
    let mut j: usize = i;
    while j < t.len() && 48 <= t[j] && t[j] <= 57
        invariant
            i <= j,
            j >= t@.len() ==> j == i || j == t@.len(),
            digit_run_end(t@, i as int) == digit_run_end(t@, j as int),
            forall|x: int| i <= x < j ==> is_digit(#[trigger] t@[x]),
        decreases t@.len() - j,
    {
        j += 1;
    }
    let ghost end = digit_run_end(t@, i as int);
    assert(end == j);
    if j == i {
        return None;
    }
    let mut v: u64 = 0;
    let mut k: usize = i;
    while k < j
        invariant
            i <= k <= j,
            j <= t@.len(),
            end == j,
            end == digit_run_end(t@, i as int),
            forall|x: int| i <= x < j ==> is_digit(#[trigger] t@[x]),
            v as nat == digits_value(t@.subrange(i as int, k as int)),
        decreases j - k,
    {
        let d = t[k] - 48;
        assert(t@.subrange(i as int, k + 1).drop_last() =~= t@.subrange(i as int, k as int));
        if v > (u64::MAX - d as u64) / 10 {
            proof {
                let sub = t@.subrange(i as int, k + 1);
                assert(sub.last() == t@[k as int]);
                assert(is_digit(t@[k as int]));
                assert(digits_value(sub) == v * 10 + d);
                let vi = v as int;
                let di = d as int;
                assert(vi * 10 + di > u64::MAX) by (nonlinear_arith)
                    requires
                        vi > (u64::MAX - di) / 10,
                        0 <= di <= 9,
                ;
                lemma_digits_mono(t@, i as int, k + 1, j as int);
                assert(digits_value(t@.subrange(i as int, j as int)) > u64::MAX);
                assert(digit_run_end(t@, i as int) == j);
            }
            return None;
        }
        v = v * 10 + d as u64;
        k += 1;
    }
    Some((v, j))
}

fn read_str_field(t: &[u8], i: usize, key: &[u8]) -> (r: Option<(Vec<u8>, usize)>)
    ensures
        match r {
            None => str_field(t@, i as int, key@) is None,
            Some((v, j)) => str_field(t@, i as int, key@) == Some((v@, j as int)),
        },
{
    reveal(str_field);
    match expect_lit(t, i, key) {
        None => None,
        Some(p) => read_string(t, p),
    }
}

fn read_num_field(t: &[u8], i: usize, key: &[u8]) -> (r: Option<(u64, usize)>)
    ensures
        match r {
            None => num_field(t@, i as int, key@) is None,
            Some((v, j)) => num_field(t@, i as int, key@) == Some((v as nat, j as int)),
        },
{
    reveal(num_field);
    match expect_lit(t, i, key) {
        None => None,
        Some(p) => read_number(t, p),
    }
}

fn role_from_bytes(b: &[u8]) -> (r: Option<ClientRole>)
    ensures
        r == role_of_bytes(b@),
{
    let e = role_name_bytes(ClientRole::Editor);
    let v = role_name_bytes(ClientRole::Viewer);
    if bytes_eq_constant_time(b, e.as_slice()) {
        Some(ClientRole::Editor)
    } else if bytes_eq_constant_time(b, v.as_slice()) {
        Some(ClientRole::Viewer)
    } else {
        None
    }
}

/// Reads the claims that a JSON text holds; `None` for any text not in
/// the layout above.
pub fn decode_claims(t: &[u8]) -> (r: Option<TokenClaims>)
    ensures
        match r {
            None => parse_claims(t@) is None,
            Some(c) => parse_claims(t@) == Some(c@),
        },
{
    let (sid, after_sid) = match read_str_field(t, 0, key_sid_bytes().as_slice()) {
        None => return None,
        Some(x) => x,
    };
    let (rb, after_role) = match read_str_field(t, after_sid, key_role_bytes().as_slice()) {
        None => return None,
        Some(x) => x,
    };
    let role = match role_from_bytes(rb.as_slice()) {
        None => return None,
        Some(x) => x,
    };
    let (exp, after_exp) = match read_num_field(t, after_role, key_exp_bytes().as_slice()) {
        None => return None,
        Some(x) => x,
    };
    let (jti, after_jti) = match read_str_field(t, after_exp, key_jti_bytes().as_slice()) {
        None => return None,
        Some(x) => x,
    };
    let (ver, after_version) = match read_num_field(t, after_jti, key_version_bytes().as_slice()) {
        None => return None,
        Some(x) => x,
    };
    if ver > u32::MAX as u64 {
        return None;
    }
    match expect_lit(t, after_version, close_brace_bytes().as_slice()) {
        None => None,
        Some(end) => if end == t.len() {
            Some(TokenClaims { sid, role, exp, jti, version: ver as u32 })
        } else {
            None
        },
    }
}

} // verus!
