use vstd::prelude::*;

use crate::types::ContractError;

verus! {

/// One key/value pair of an event.
#[derive(Debug, PartialEq)]
pub struct Attribute {
    pub key: String,
    pub value: String,
}

/// An event emitted while the component registry handled a mint call.
#[derive(Debug, PartialEq)]
pub struct Event {
    pub ty: String,
    pub attributes: Vec<Attribute>,
}

/// Type of the event that carries the minted component's id.
pub const MINT_EVENT_TYPE: &'static str = "wasm";

/// Key of the attribute that carries the minted component's id.
pub const PART_ID_KEY: &'static str = "part_id";

pub open spec fn is_digit(c: char) -> bool {
    '0' <= c && c <= '9'
}

pub open spec fn digit_value(c: char) -> nat {
    (c as nat - '0' as nat) as nat
}

/// Value of a sequence of decimal digits, most significant first.
pub open spec fn decimal_value(s: Seq<char>) -> nat
    decreases s.len(),
{
    if s.len() == 0 {
        0
    } else {
        decimal_value(s.drop_last()) * 10 + digit_value(s.last())
    }
}

/// The digits of a decimal numeral: the text after an optional leading `+`.
pub open spec fn numeral_digits(s: Seq<char>) -> Seq<char> {
    if s.len() > 0 && s[0] == '+' {
        s.subrange(1, s.len() as int)
    } else {
        s
    }
}

/// `s` is the decimal numeral of some `u64`: an optional `+`, then one or
/// more digits whose value fits.
pub open spec fn is_u64_numeral(s: Seq<char>) -> bool {
    let d = numeral_digits(s);
    &&& d.len() > 0
    &&& forall|i: int| 0 <= i < d.len() ==> is_digit(#[trigger] d[i])
    &&& decimal_value(d) <= u64::MAX
}

proof fn lemma_decimal_prefix_le(s: Seq<char>, j: int)
    requires
        0 <= j <= s.len(),
    ensures
        decimal_value(s.subrange(0, j)) <= decimal_value(s),
    decreases s.len(),
{
    if j < s.len() {
        lemma_decimal_prefix_le(s.drop_last(), j);
        assert(s.drop_last().subrange(0, j) =~= s.subrange(0, j));
    } else {
        assert(s.subrange(0, j) =~= s);
    }
}

/// Reads a decimal `u64`, as `str::parse::<u64>` does.
pub fn parse_u64(s: &String) -> (r: Option<u64>)
    ensures
        r is Some <==> is_u64_numeral(s@),
        r matches Some(n) ==> n == decimal_value(numeral_digits(s@)),
{
    let text = s.as_str();
    let n = text.unicode_len();
    let mut start: usize = 0;
    if n > 0 && text.get_char(0) == '+' {
        start = 1;
    }
    let ghost d = numeral_digits(s@);
    proof {
        assert(d =~= s@.subrange(start as int, n as int));
    }
    if start == n {
        return None;
    }
    let mut acc: u64 = 0;
    let mut i: usize = start;
    while i < n
        invariant
            start <= i <= n,
            n == s@.len(),
            text@ == s@,
            d == s@.subrange(start as int, n as int),
            d == numeral_digits(s@),
            acc == decimal_value(d.subrange(0, i - start)),
            forall|j: int| 0 <= j < i - start ==> is_digit(#[trigger] d[j]),
        decreases n - i,
    {
        let c = text.get_char(i);
        if !('0' <= c && c <= '9') {
            proof {
                assert(d[i - start] == c);
                assert(!is_digit(d[i - start]));
            }
            return None;
        }
        let digit = (c as u32 - '0' as u32) as u64;
        let ghost prefix = d.subrange(0, i - start + 1);
        proof {
            assert(prefix.drop_last() =~= d.subrange(0, i - start));
            assert(prefix.last() == c);
            assert(digit == digit_value(c));
            assert(decimal_value(prefix) == decimal_value(prefix.drop_last()) * 10 + digit_value(prefix.last()));
            assert(decimal_value(prefix) == acc * 10 + digit);
        }
        if acc > (u64::MAX - digit) / 10 {
            proof {
                assert(acc * 10 + digit > u64::MAX) by (nonlinear_arith)
                    requires
                        acc > (u64::MAX - digit) / 10,
                        digit <= 9,
                ;
                if forall|j: int| 0 <= j < d.len() ==> is_digit(#[trigger] d[j]) {
                    lemma_decimal_prefix_le(d, i - start + 1);
                }
            }
            return None;
        }
        proof {
            assert(acc * 10 + digit <= u64::MAX) by (nonlinear_arith)
                requires
                    acc <= (u64::MAX - digit) / 10,
                    digit <= 9,
            ;
        }
        acc = acc * 10 + digit;
        i = i + 1;
        proof {
            assert(is_digit(d[i - 1 - start]));
        }
    }
    proof {
        assert(d.subrange(0, n - start) =~= d);
    }
    Some(acc)
}

/// `events[i]` is the first event of the given type.
pub open spec fn first_event_of(events: Seq<Event>, ty: Seq<char>, i: int) -> bool {
    &&& 0 <= i < events.len()
    &&& events[i].ty@ == ty
    &&& forall|j: int| 0 <= j < i ==> (#[trigger] events[j]).ty@ != ty
}

/// `attrs[i]` is the first attribute with the given key.
pub open spec fn first_attribute_of(attrs: Seq<Attribute>, key: Seq<char>, i: int) -> bool {
    &&& 0 <= i < attrs.len()
    &&& attrs[i].key@ == key
    &&& forall|j: int| 0 <= j < i ==> (#[trigger] attrs[j]).key@ != key
}

/// The text a reply carries as the minted component's id: the first
/// `part_id` attribute of the first `wasm` event.
pub open spec fn reply_id_text(events: Seq<Event>, text: Seq<char>) -> bool {
    exists|i: int, j: int|
        #[trigger] first_event_of(events, MINT_EVENT_TYPE@, i) && #[trigger] first_attribute_of(
            events[i].attributes@,
            PART_ID_KEY@,
            j,
        ) && events[i].attributes@[j].value@ == text
}

/// A reply carries at most one id text.
pub proof fn lemma_reply_id_text_unique(events: Seq<Event>, t1: Seq<char>, t2: Seq<char>)
    requires
        reply_id_text(events, t1),
        reply_id_text(events, t2),
    ensures
        t1 == t2,
{
    let (a1, b1) = choose|a: int, b: int|
        #[trigger] first_event_of(events, MINT_EVENT_TYPE@, a) && #[trigger] first_attribute_of(
            events[a].attributes@,
            PART_ID_KEY@,
            b,
        ) && events[a].attributes@[b].value@ == t1;
    let (a2, b2) = choose|a: int, b: int|
        #[trigger] first_event_of(events, MINT_EVENT_TYPE@, a) && #[trigger] first_attribute_of(
            events[a].attributes@,
            PART_ID_KEY@,
            b,
        ) && events[a].attributes@[b].value@ == t2;
    if a1 < a2 {
        assert(events[a1].ty@ != MINT_EVENT_TYPE@);
    } else if a2 < a1 {
        assert(events[a2].ty@ != MINT_EVENT_TYPE@);
    }
    let attrs = events[a1].attributes@;
    if b1 < b2 {
        assert(attrs[b1].key@ != PART_ID_KEY@);
    } else if b2 < b1 {
        assert(attrs[b2].key@ != PART_ID_KEY@);
    }
}

/// Position of the first event of type `ty`.
fn find_event(events: &Vec<Event>, ty: &String) -> (r: Option<usize>)
    ensures
        r matches Some(i) ==> first_event_of(events@, ty@, i as int),
        r is None ==> forall|j: int| 0 <= j < events@.len() ==> (#[trigger] events@[j]).ty@ != ty@,
{
    let mut i: usize = 0;
    while i < events.len()
        invariant
            i <= events@.len(),
            forall|j: int| 0 <= j < i ==> (#[trigger] events@[j]).ty@ != ty@,
        decreases events@.len() - i,
    {
        if events[i].ty == *ty {
            return Some(i);
        }
        i = i + 1;
    }
    None
}

/// Position of the first attribute with key `key`.
fn find_attribute(attrs: &Vec<Attribute>, key: &String) -> (r: Option<usize>)
    ensures
        r matches Some(i) ==> first_attribute_of(attrs@, key@, i as int),
        r is None ==> forall|j: int| 0 <= j < attrs@.len() ==> (#[trigger] attrs@[j]).key@ != key@,
{
    let mut i: usize = 0;
    while i < attrs.len()
        invariant
            i <= attrs@.len(),
            forall|j: int| 0 <= j < i ==> (#[trigger] attrs@[j]).key@ != key@,
        decreases attrs@.len() - i,
    {
        if attrs[i].key == *key {
            return Some(i);
        }
        i = i + 1;
    }
    None
}

/// The minted component's id carried by a mint reply's events.
pub fn part_id_from_events(events: &Vec<Event>) -> (r: Result<u64, ContractError>)
    ensures
        r matches Ok(id) ==> exists|text: Seq<char>|
            #[trigger] reply_id_text(events@, text) && is_u64_numeral(text) && id == decimal_value(
                numeral_digits(text),
            ),
        r is Err ==> r == Err::<u64, ContractError>(ContractError::MalformedReply) && forall|text: Seq<char>|
            #[trigger] reply_id_text(events@, text) ==> !is_u64_numeral(text),
{
    let ty = MINT_EVENT_TYPE.to_owned();
    let key = PART_ID_KEY.to_owned();
    let i = match find_event(events, &ty) {
        Some(i) => i,
        None => {
            return Err(ContractError::MalformedReply);
        },
    };
    let attrs = &events[i].attributes;
    let j = match find_attribute(attrs, &key) {
        Some(j) => j,
        None => {
            proof {
                assert forall|text: Seq<char>| #[trigger] reply_id_text(events@, text) implies !is_u64_numeral(text) by {
                    let (a, b) = choose|a: int, b: int|
                        #[trigger] first_event_of(events@, MINT_EVENT_TYPE@, a) && #[trigger] first_attribute_of(
                            events@[a].attributes@,
                            PART_ID_KEY@,
                            b,
                        ) && events@[a].attributes@[b].value@ == text;
                    if a < i {
                        assert(events@[a].ty@ != MINT_EVENT_TYPE@);
                    } else if i < a {
                        assert(events@[i as int].ty@ != MINT_EVENT_TYPE@);
                    }
                }
            }
            return Err(ContractError::MalformedReply);
        },
    };
    let ghost text = attrs@[j as int].value@;
    proof {
        assert(reply_id_text(events@, text));
    }
    match parse_u64(&attrs[j].value) {
        Some(id) => Ok(id),
        None => {
            proof {
                assert forall|t: Seq<char>| #[trigger] reply_id_text(events@, t) implies !is_u64_numeral(t) by {
                    let (a, b) = choose|a: int, b: int|
                        #[trigger] first_event_of(events@, MINT_EVENT_TYPE@, a) && #[trigger] first_attribute_of(
                            events@[a].attributes@,
                            PART_ID_KEY@,
                            b,
                        ) && events@[a].attributes@[b].value@ == t;
                    if a < i {
                        assert(events@[a].ty@ != MINT_EVENT_TYPE@);
                    } else if i < a {
                        assert(events@[i as int].ty@ != MINT_EVENT_TYPE@);
                    }
                    if b < j {
                        assert(attrs@[b].key@ != PART_ID_KEY@);
                    } else if j < b {
                        assert(attrs@[j as int].key@ != PART_ID_KEY@);
                    }
                }
            }
            Err(ContractError::MalformedReply)
        },
    }
}

} // verus!
