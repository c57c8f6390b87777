//! Anonymous client identities used to deduplicate reading telemetry.
//!
//! A client token is the 128-bit value of a randomly generated UUID. Its
//! string form is the canonical hyphenated spelling (8-4-4-4-12 lowercase
//! hexadecimal digits), written and parsed by verified code; only drawing
//! the random value itself is delegated to the `uuid` crate.

use vstd::arithmetic::div_mod::{
    lemma_basic_div, lemma_div_denominator, lemma_fundamental_div_mod,
};
use vstd::prelude::*;

use crate::cookies::CookieJar;
use crate::text::{hex_char_val, hex_digit_char, is_hex_char, is_lower_hex_char, push_hex_digit};

verus! {

/// An anonymous per-browser token used only for deduplicating reading
/// telemetry, never for authentication.
#[derive(Clone, Copy, PartialEq, Eq, Structural, Debug)]
pub struct ClientId(pub u128);

/// The identity attached to an aggregate row: either a concrete token bound
/// to one anonymous client, or the shared `Anonymous` bucket for clients
/// that cannot persist a token. Keeping `Anonymous` a distinct variant
/// (rather than a reserved concrete value) makes "all anonymous traffic
/// aggregates together" an explicit design choice and rules out collisions
/// with a real generated identifier.
#[derive(Clone, Copy, PartialEq, Eq, Structural, Debug)]
pub enum Identifier {
    Known(ClientId),
    Anonymous,
}

/// Sixteen to the power `k` (one for `k <= 0`).
pub open spec fn pow16(k: int) -> int
    decreases k,
{
    if k <= 0 {
        1
    } else {
        16 * pow16(k - 1)
    }
}

/// Powers of sixteen are positive.
pub proof fn lemma_pow16_pos(k: int)
    ensures
        pow16(k) >= 1,
    decreases k,
{
    if k > 0 {
        lemma_pow16_pos(k - 1);
    }
}

/// Powers of sixteen grow with the exponent.
pub proof fn lemma_pow16_mono(a: int, b: int)
    requires
        a <= b,
    ensures
        pow16(a) <= pow16(b),
    decreases b - a,
{
    if a < b {
        lemma_pow16_mono(a, b - 1);
        lemma_pow16_pos(b - 1);
    }
}

/// 16^31, the place value of the leading digit of a 32-digit hexadecimal
/// number.
const LEADING_PLACE: u128 = 0x10000000000000000000000000000000;

/// Positions of the four hyphens in the hyphenated UUID spelling.
pub open spec fn is_hyphen_pos(p: int) -> bool {
    p == 8 || p == 13 || p == 18 || p == 23
}

/// How many of the positions before `p` carry hexadecimal digits.
pub open spec fn digits_before(p: int) -> int {
    if p <= 8 {
        p
    } else if p <= 13 {
        p - 1
    } else if p <= 18 {
        p - 2
    } else if p <= 23 {
        p - 3
    } else {
        p - 4
    }
}

/// Is `t` spelt like a hyphenated UUID: 36 characters, hyphens at the four
/// hyphen positions, hexadecimal digits of either case elsewhere?
pub open spec fn is_uuid_text(t: Seq<char>) -> bool {
    &&& t.len() == 36
    &&& forall|p: int| 0 <= p < 36 && is_hyphen_pos(p) ==> #[trigger] t[p] == '-'
    &&& forall|p: int| 0 <= p < 36 && !is_hyphen_pos(p) ==> is_hex_char(#[trigger] t[p])
}

/// The value of the hexadecimal digits among the first `p` positions of a
/// hyphenated UUID spelling, most significant first.
pub open spec fn uuid_prefix_value(t: Seq<char>, p: int) -> int
    decreases p,
{
    if p <= 0 {
        0
    } else if is_hyphen_pos(p - 1) {
        uuid_prefix_value(t, p - 1)
    } else {
        16 * uuid_prefix_value(t, p - 1) + hex_char_val(t[p - 1])
    }
}

/// The 128-bit value a hyphenated UUID spelling denotes.
pub open spec fn uuid_text_value(t: Seq<char>) -> int {
    uuid_prefix_value(t, 36)
}

/// A prefix value reads only the characters before `p`.
proof fn lemma_prefix_value_stable(t1: Seq<char>, t2: Seq<char>, p: int)
    requires
        forall|j: int| 0 <= j < p ==> t1[j] == t2[j],
    ensures
        uuid_prefix_value(t1, p) == uuid_prefix_value(t2, p),
    decreases p,
{
    if p > 0 {
        lemma_prefix_value_stable(t1, t2, p - 1);
    }
}

/// Relies on `uuid::Uuid::new_v4` for randomness: a freshly drawn
/// version-4 UUID, returned as its 128-bit value. The generator forces the
/// version and variant bits on, so the value is never zero (never the nil
/// UUID).
#[verifier::external_body]
fn fresh_uuid_value() -> (v: u128)
    ensures
        v != 0,
{
    uuid::Uuid::new_v4().as_u128()
}

impl ClientId {
    /// Creates a new random client identifier. The underlying 128-bit
    /// value is never zero.
    pub fn new() -> (c: ClientId)
        ensures
            c.0 != 0,
    {
        ClientId(fresh_uuid_value())
    }

    /// The canonical hyphenated spelling of the identifier: 32 lowercase
    /// hexadecimal digits in five hyphen-separated groups, denoting the
    /// 128-bit value.
    pub fn to_string(&self) -> (s: String)
        ensures
            is_uuid_text(s@),
            forall|p: int|
                0 <= p < 36 && !is_hyphen_pos(p) ==> is_lower_hex_char(#[trigger] s@[p]),
            uuid_text_value(s@) == self.0 as int,
    {
        let v = self.0;
        let mut s = String::new();
        let mut power: u128 = LEADING_PLACE;
        let mut p: usize = 0;
        let mut k: usize = 0;
        proof {
            reveal_with_fuel(pow16, 33);
            assert(LEADING_PLACE as int == pow16(31));
            assert((v as int) < pow16(32));
            lemma_basic_div(v as int, pow16(32));
        }
        while p < 36
            invariant
                p <= 36,
                k as int == digits_before(p as int),
                k <= 32,
                s@.len() == p as int,
                forall|q: int| 0 <= q < p && is_hyphen_pos(q) ==> #[trigger] s@[q] == '-',
                forall|q: int|
                    0 <= q < p && !is_hyphen_pos(q) ==> is_lower_hex_char(#[trigger] s@[q]),
                uuid_prefix_value(s@, p as int) == v as int / pow16(32 - k as int),
                k < 32 ==> power as int == pow16(31 - k as int),
            decreases 36 - p,
        {
            let ghost pre = s@;
            if p == 8 || p == 13 || p == 18 || p == 23 {
                proof {
                    reveal_strlit("-");
                }
                s.append("-");
                proof {
                    assert(s@ =~= pre.push('-'));
                    lemma_prefix_value_stable(pre, s@, p as int);
                }
            } else {
                proof {
                    lemma_pow16_pos(31 - k as int);
                }
                let d = ((v / power) % 16) as u8;
                push_hex_digit(&mut s, d);
                proof {
                    assert(s@ =~= pre.push(hex_digit_char(d as int)));
                    lemma_prefix_value_stable(pre, s@, p as int);
                    let a = v as int / pow16(31 - k as int);
                    lemma_div_denominator(v as int, pow16(31 - k as int), 16);
                    assert(pow16(31 - k as int) * 16 == pow16(32 - k as int)) by {
                        assert(pow16(32 - k as int) == 16 * pow16(31 - k as int));
                    }
                    assert(a / 16 == v as int / pow16(32 - k as int));
                    lemma_fundamental_div_mod(a, 16);
                    assert(d as int == a % 16);
                    assert(uuid_prefix_value(s@, p as int + 1) == 16 * (a / 16) + a % 16);
                }
                power = power / 16;
                k = k + 1;
                proof {
                    if k < 32 {
                        assert(pow16(32 - k as int) == 16 * pow16(31 - k as int));
                        assert((16 * pow16(31 - k as int)) / 16 == pow16(31 - k as int)) by {
                            vstd::arithmetic::div_mod::lemma_div_multiples_vanish(
                                pow16(31 - k as int),
                                16,
                            );
                        }
                    }
                }
            }
            p = p + 1;
        }
        proof {
            assert(k == 32);
            assert(pow16(0) == 1);
            assert(v as int / 1 == v as int);
            assert(uuid_text_value(s@) == uuid_prefix_value(s@, 36));
        }
        s
    }

    /// Parses the hyphenated UUID spelling, of either letter case, back
    /// into an identifier; any other input yields `None`.
    pub fn from_str(text: &str) -> (r: Option<ClientId>)
        ensures
            is_uuid_text(text@) ==> r is Some && r.unwrap().0 as int == uuid_text_value(text@),
            !is_uuid_text(text@) ==> r is None,
    {
        if text.unicode_len() != 36 {
            return None;
        }
        let mut acc: u128 = 0;
        let mut p: usize = 0;
        let mut k: usize = 0;
        while p < 36
            invariant
                p <= 36,
                k as int == digits_before(p as int),
                k <= 32,
                text@.len() == 36,
                forall|q: int| 0 <= q < p && is_hyphen_pos(q) ==> #[trigger] text@[q] == '-',
                forall|q: int|
                    0 <= q < p && !is_hyphen_pos(q) ==> is_hex_char(#[trigger] text@[q]),
                acc as int == uuid_prefix_value(text@, p as int),
                (acc as int) < pow16(k as int),
            decreases 36 - p,
        {
            let c = text.get_char(p);
            if p == 8 || p == 13 || p == 18 || p == 23 {
                if c != '-' {
                    return None;
                }
            } else {
                let code = c as u32;
                let d: u8 = if 48 <= code && code <= 57 {
                    (code - 48) as u8
                } else if 97 <= code && code <= 102 {
                    (code - 87) as u8
                } else if 65 <= code && code <= 70 {
                    (code - 55) as u8
                } else {
                    return None;
                };
                proof {
                    reveal_with_fuel(pow16, 33);
                    lemma_pow16_mono(k as int + 1, 32);
                    assert(pow16(k as int + 1) == 16 * pow16(k as int));
                }
                acc = acc * 16 + (d as u128);
                k = k + 1;
            }
            p = p + 1;
        }
        Some(ClientId(acc))
    }
}

/// Does the jar hold a parseable client identifier under the
/// `client_id` cookie?
pub open spec fn has_client_id(m: Map<Seq<char>, Seq<char>>) -> bool {
    m.contains_key("client_id"@) && is_uuid_text(m["client_id"@])
}

/// Ensure the jar carries a client identifier: a parseable existing one is
/// kept untouched; otherwise a fresh random identifier is generated and
/// persisted under the `client_id` cookie.
pub fn ensure_client_id_set(jar: &mut CookieJar)
    requires
        old(jar).wf(),
    ensures
        final(jar).wf(),
        has_client_id(old(jar)@) ==> final(jar)@ == old(jar)@,
        !has_client_id(old(jar)@) ==> exists|t: Seq<char>|
            is_uuid_text(t) && uuid_text_value(t) != 0 && final(jar)@ == old(jar)@.insert(
                "client_id"@,
                t,
            ),
        has_client_id(final(jar)@),
{
    let ok = match jar.get_cookie("client_id") {
        Some(v) => ClientId::from_str(v.as_str()).is_some(),
        None => false,
    };
    if !ok {
        let c = ClientId::new();
        let t = c.to_string();
        jar.set_cookie("client_id", t.as_str());
        proof {
            assert(jar@["client_id"@] == t@);
        }
    }
}

/// The client identifier persisted in the jar, if a parseable one is
/// there; no cookie is written.
pub fn get_client_id(jar: &CookieJar) -> (r: Option<ClientId>)
    requires
        jar.wf(),
    ensures
        has_client_id(jar@) ==> r is Some && r.unwrap().0 as int == uuid_text_value(
            jar@["client_id"@],
        ),
        !has_client_id(jar@) ==> r is None,
{
    match jar.get_cookie("client_id") {
        Some(v) => ClientId::from_str(v.as_str()),
        None => None,
    }
}

/// The identity a submission is attributed to: the persisted client token,
/// or `Anonymous` where none is persisted.
pub fn current_identifier(jar: &CookieJar) -> (r: Identifier)
    requires
        jar.wf(),
    ensures
        has_client_id(jar@) ==> (r matches Identifier::Known(c) && c.0 as int
            == uuid_text_value(jar@["client_id"@])),
        !has_client_id(jar@) ==> r == Identifier::Anonymous,
{
    match get_client_id(jar) {
        Some(c) => Identifier::Known(c),
        None => Identifier::Anonymous,
    }
}

} // verus!
