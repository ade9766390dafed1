//! How the values a script returns become scheduling decisions, and the
//! decisions behind the `fila.helpers` functions scripts can call.

use vstd::prelude::*;
use vstd::utf8::*;
use crate::text::string_from_utf8;

verus! {

/// Equality of two strings, by their bytes.
pub fn str_eq(a: &str, b: &str) -> (r: bool)
    ensures
        r == (a@ == b@),
{
    let x = a.as_bytes();
    let y = b.as_bytes();
    proof {
        encode_utf8_decode_utf8(a@);
        encode_utf8_decode_utf8(b@);
    }
    if x.len() != y.len() {
        return false;
    }
    let mut i: usize = 0;
    while i < x.len()
        invariant
            x@ == encode_utf8(a@),
            y@ == encode_utf8(b@),
            x@.len() == y@.len(),
            i <= x@.len(),
            forall|j: int| 0 <= j < i ==> x@[j] == y@[j],
        decreases x@.len() - i,
    {
        if x[i] != y[i] {
            return false;
        }
        i = i + 1;
    }
    assert(x@ =~= y@);
    true
}

/// The string `"default"`.
pub open spec fn default_key() -> Seq<char> {
    seq!['d', 'e', 'f', 'a', 'u', 'l', 't']
}

/// A fresh `"default"` string.
pub fn default_string() -> (r: String)
    ensures
        r@ == default_key(),
{
    let mut b: Vec<u8> = Vec::new();
    b.push(0x64);
    b.push(0x65);
    b.push(0x66);
    b.push(0x61);
    b.push(0x75);
    b.push(0x6C);
    b.push(0x74);
    proof {
        assert(is_ascii_chars(default_key()));
        is_ascii_chars_encode_utf8(default_key());
        assert(encode_utf8(default_key()) =~= b@);
        encode_utf8_valid_utf8(default_key());
        encode_utf8_decode_utf8(default_key());
    }
    match string_from_utf8(b) {
        Ok(s) => s,
        Err(_) => String::new(),
    }
}


/// Result of executing an on_enqueue Lua script.
#[derive(Debug, Clone, PartialEq)]
pub struct OnEnqueueResult {
    pub fairness_key: String,
    pub weight: u32,
    pub throttle_keys: Vec<String>,
}

impl Default for OnEnqueueResult {
    fn default() -> (r: Self)
        ensures
            r.fairness_key@ == default_key(),
            r.weight == 1,
            r.throttle_keys@.len() == 0,
    {
        OnEnqueueResult { fairness_key: default_string(), weight: 1, throttle_keys: Vec::new() }
    }
}

/// The weight a script's `weight` field asks for: integers that fit a
/// `u32` are taken, anything else (missing, negative, too large) gives 1.
pub open spec fn spec_weight(w: Option<i64>) -> u32 {
    match w {
        Some(x) => if 0 <= x <= u32::MAX {
            x as u32
        } else {
            1
        },
        None => 1,
    }
}

pub fn weight_from_script(w: Option<i64>) -> (r: u32)
    ensures
        r == spec_weight(w),
{
    match w {
        Some(x) => if 0 <= x && x <= 0xFFFF_FFFF {
            x as u32
        } else {
            1
        },
        None => 1,
    }
}

/// The strings held by the `Some` items, in order.
pub open spec fn present_strings(s: Seq<Option<String>>) -> Seq<Seq<char>>
    decreases s.len(),
{
    if s.len() == 0 {
        Seq::empty()
    } else {
        let rest = present_strings(s.drop_last());
        match s.last() {
            Some(k) => rest.push(k@),
            None => rest,
        }
    }
}

pub open spec fn strings_view(s: Seq<String>) -> Seq<Seq<char>> {
    s.map_values(|k: String| k@)
}

/// Build the result of an on_enqueue script from the fields it returned:
/// a missing fairness key becomes `"default"`, the weight follows
/// `spec_weight`, and throttle keys keep the string items of the list (none
/// when the list is missing).
pub fn on_enqueue_result(
    fairness_key: Option<String>,
    weight: Option<i64>,
    throttle_keys: Option<Vec<Option<String>>>,
) -> (r: OnEnqueueResult)
    ensures
        r.fairness_key@ == match fairness_key {
            Some(k) => k@,
            None => default_key(),
        },
        r.weight == spec_weight(weight),
        strings_view(r.throttle_keys@) == match throttle_keys {
            Some(ks) => present_strings(ks@),
            None => Seq::<Seq<char>>::empty(),
        },
{
    let fairness_key = match fairness_key {
        Some(k) => k,
        None => default_string(),
    };
    let weight = weight_from_script(weight);
    let mut keys: Vec<String> = Vec::new();
    match throttle_keys {
        Some(ks) => {
            let mut ks = ks;
            let ghost all = ks@;
            let mut i: usize = 0;
            let n = ks.len();
            while i < n
                invariant
                    n == all.len(),
                    i <= n,
                    ks@ == all.skip(i as int),
                    strings_view(keys@) == present_strings(all.take(i as int)),
                decreases n - i,
            {
                let item = ks.remove(0);
                proof {
                    assert(item == all[i as int]);
                    assert(ks@ == all.skip(i + 1));
                    assert(all.take(i + 1).drop_last() == all.take(i as int));
                    assert(all.take(i + 1).last() == all[i as int]);
                }
                let ghost before = keys@;
                match item {
                    Some(k) => {
                        keys.push(k);
                        proof {
                            assert(strings_view(keys@) == strings_view(before).push(k@));
                        }
                    },
                    None => {},
                }
                i = i + 1;
            }
            assert(all.take(n as int) == all);
        },
        None => {},
    }
    OnEnqueueResult { fairness_key, weight, throttle_keys: keys }
}

/// Action to take when a message fails.
#[derive(Debug, Clone, Copy, PartialEq, Eq, Structural)]
pub enum FailureAction {
    /// Retry the message immediately (or with delay, when supported).
    Retry,
    /// Move the message to the dead-letter queue.
    DeadLetter,
}

/// Result of executing an on_failure Lua script.
#[derive(Debug, Clone, Copy, PartialEq, Eq, Structural)]
pub struct OnFailureResult {
    pub action: FailureAction,
    /// Requested delay in milliseconds before retry.
    pub delay_ms: u64,
}

impl Default for OnFailureResult {
    fn default() -> (r: Self)
        ensures
            r == (OnFailureResult { action: FailureAction::Retry, delay_ms: 0 }),
    {
        OnFailureResult { action: FailureAction::Retry, delay_ms: 0 }
    }
}

/// `"dlq"`.
pub open spec fn dlq_word() -> Seq<char> {
    seq!['d', 'l', 'q']
}

/// The action a script's `action` field names: `"dlq"` sends the message to
/// the dead-letter queue; `"retry"`, a missing field and any other word retry.
pub fn failure_action_from(action: Option<&str>) -> (r: FailureAction)
    ensures
        r == (if action matches Some(a) && a@ == dlq_word() {
            FailureAction::DeadLetter
        } else {
            FailureAction::Retry
        }),
{
    match action {
        Some(a) => {
            let b = a.as_bytes();
            proof {
                encode_utf8_decode_utf8(a@);
                assert(is_ascii_chars(dlq_word()));
                is_ascii_chars_encode_utf8(dlq_word());
            }
            if b.len() == 3 && b[0] == 0x64 && b[1] == 0x6C && b[2] == 0x71 {
                proof {
                    assert(encode_utf8(a@) =~= encode_utf8(dlq_word()));
                    encode_utf8_decode_utf8(dlq_word());
                }
                FailureAction::DeadLetter
            } else {
                proof {
                    if a@ == dlq_word() {
                        assert(encode_utf8(a@)[0] == 0x64);
                    }
                }
                FailureAction::Retry
            }
        },
        None => FailureAction::Retry,
    }
}

/// The delay a script's `delay_ms` field asks for: non-negative integers
/// are taken, anything else gives 0.
pub fn delay_from_script(d: Option<i64>) -> (r: u64)
    ensures
        r == match d {
            Some(x) => if x >= 0 {
                x as u64
            } else {
                0
            },
            None => 0,
        },
{
    match d {
        Some(x) => if x >= 0 {
            x as u64
        } else {
            0
        },
        None => 0,
    }
}

/// Build the result of an on_failure script from the fields it returned.
pub fn on_failure_result(action: Option<&str>, delay_ms: Option<i64>) -> (r: OnFailureResult)
    ensures
        r.action == (if action matches Some(a) && a@ == dlq_word() {
            FailureAction::DeadLetter
        } else {
            FailureAction::Retry
        }),
        r.delay_ms == match delay_ms {
            Some(x) => if x >= 0 {
                x as u64
            } else {
                0
            },
            None => 0,
        },
{
    OnFailureResult { action: failure_action_from(action), delay_ms: delay_from_script(delay_ms) }
}

/// `fila.helpers.max_retries(attempts, max)`: retry while `attempts < max`,
/// otherwise dead-letter.
pub fn max_retries(attempts: i64, max: i64) -> (r: FailureAction)
    ensures
        r == (if attempts < max {
            FailureAction::Retry
        } else {
            FailureAction::DeadLetter
        }),
{
    if attempts < max {
        FailureAction::Retry
    } else {
        FailureAction::DeadLetter
    }
}

/// `fila.helpers.tenant_route(msg, header_name)`: the fairness key is the
/// header's value, or `"default"` when the message lacks it.
pub fn tenant_route(header_value: Option<String>) -> (r: String)
    ensures
        r@ == match header_value {
            Some(v) => v@,
            None => default_key(),
        },
{
    match header_value {
        Some(v) => v,
        None => default_string(),
    }
}

} // verus!
