//! The sequence-item dispatcher: decides what a scripted item means —
//! which primitive to run, with which requests and which timeout —
//! while the driver performs the sends, receives and sleeps.

use vstd::prelude::*;
use vstd::string::StrSliceExecFns;

use crate::common::{
    parse_duration_to_milliseconds, parse_hex_digits, spec_is_hex_digit, spec_hex_val,
    spec_parse_duration, spec_parse_hex, str_eq, str_starts_with,
};
use crate::diag::Diag;
use crate::error::TesterError;
use crate::parameters::{ActionValue, SequenceItem};
use crate::security::{find_action_value, spec_kv_lookup};

verus! {

/// The executor: owns the diagnostic session it drives.
pub struct Executor {
    pub s_diag_obj: Diag,
}

impl Executor {
    /// Builds an executor over a diagnostic session.
    pub fn create_executor(s_diag_obj: Diag) -> (r: Self)
        ensures
            r.s_diag_obj == s_diag_obj,
    {
        Executor { s_diag_obj }
    }
}

/// The keep-alive request: TesterPresent with the
/// suppress-positive-response bit set.
pub fn tester_present_request() -> (r: Vec<u8>)
    ensures
        r@ =~= seq![0x3Eu8, 0x80u8],
        r@.len() == 2 && r@[1] & 0x80 == 0x80,
{
    let mut r: Vec<u8> = Vec::new();
    r.push(0x3E);
    r.push(0x80);
    proof {
        assert(0x80u8 & 0x80u8 == 0x80u8) by (bit_vector);
    }
    r
}

/// A string with its spaces removed.
pub open spec fn spec_strip_spaces(s: Seq<char>) -> Seq<char>
    decreases s.len(),
{
    if s.len() == 0 {
        Seq::empty()
    } else {
        let p = spec_strip_spaces(s.drop_last());
        if s.last() == ' ' {
            p
        } else {
            p.push(s.last())
        }
    }
}

/// The bytes a packed hex action string denotes: one byte per digit
/// pair, a trailing lone digit standing for its own value, and any
/// pair that does not parse becoming 0.
pub open spec fn spec_action_bytes(t: Seq<char>) -> Seq<u8> {
    Seq::new(((t.len() + 1) / 2) as nat, |i: int|
        if 2 * i + 1 < t.len() {
            if spec_is_hex_digit(t[2 * i]) && spec_is_hex_digit(t[2 * i + 1]) {
                (16 * spec_hex_val(t[2 * i]) + spec_hex_val(t[2 * i + 1])) as u8
            } else {
                0u8
            }
        } else {
            if spec_is_hex_digit(t[2 * i]) {
                spec_hex_val(t[2 * i]) as u8
            } else {
                0u8
            }
        })
}

/// The value of one hex character, 0 when it is not a hex digit.
fn hex_char_val(c: char) -> (r: (bool, u8))
    ensures
        r.0 == spec_is_hex_digit(c),
        r.0 ==> r.1 == spec_hex_val(c),
{
    if c >= '0' && c <= '9' {
        (true, (c as u32 - 48) as u8)
    } else if c >= 'a' && c <= 'f' {
        (true, (c as u32 - 97 + 10) as u8)
    } else if c >= 'A' && c <= 'F' {
        (true, (c as u32 - 65 + 10) as u8)
    } else {
        (false, 0)
    }
}

/// Parses a diagnostic action string such as `"22 F1 86"`: spaces
/// dropped, then each hex digit pair one byte.
pub fn parse_action_hex(s: &str) -> (r: Vec<u8>)
    ensures
        r@ == spec_action_bytes(spec_strip_spaces(s@)),
{
    let ghost v = s@;
    let n = s.unicode_len();
    let mut stripped: Vec<char> = Vec::new();
    let mut i: usize = 0;
    proof {
        assert(v.take(0) =~= Seq::<char>::empty());
    }
    while i < n
        invariant
            v == s@,
            n == v.len(),
            0 <= i <= n,
            stripped@ == spec_strip_spaces(v.take(i as int)),
        decreases n - i,
    {
        let c = s.get_char(i);
        proof {
            assert(v.take(i as int + 1).drop_last() =~= v.take(i as int));
            assert(v.take(i as int + 1).last() == v[i as int]);
        }
        if c != ' ' {
            stripped.push(c);
        }
        i = i + 1;
    }
    proof {
        assert(v.take(n as int) =~= v);
    }
    let ghost t = stripped@;
    let m = stripped.len();
    let mut out: Vec<u8> = Vec::new();
    let mut idx: usize = 0;
    proof {
        assert(out@ =~= spec_action_bytes(t).subrange(0, 0));
    }
    while idx + 1 < m
        invariant
            t == spec_strip_spaces(v),
            t == stripped@,
            m == t.len(),
            0 <= idx <= m,
            idx % 2 == 0,
            out@ =~= spec_action_bytes(t).subrange(0, idx as int / 2),
        decreases m - idx,
    {
        let b: u8;
        let (ok0, d0) = hex_char_val(stripped[idx]);
        let (ok1, d1) = hex_char_val(stripped[idx + 1]);
        if ok0 && ok1 {
            b = 16 * d0 + d1;
        } else {
            b = 0;
        }
        out.push(b);
        proof {
            assert(2 * (idx as int / 2) == idx as int);
            assert(b == spec_action_bytes(t)[idx as int / 2]);
            assert(out@ =~= spec_action_bytes(t).subrange(0, idx as int / 2 + 1));
        }
        idx = idx + 2;
    }
    if idx < m {
        let b: u8;
        let (ok0, d0) = hex_char_val(stripped[idx]);
        if ok0 {
            b = d0;
        } else {
            b = 0;
        }
        out.push(b);
        proof {
            assert(2 * (idx as int / 2) == idx as int);
            assert(b == spec_action_bytes(t)[idx as int / 2]);
            assert(out@ =~= spec_action_bytes(t).subrange(0, idx as int / 2 + 1));
            assert(spec_action_bytes(t).subrange(0, idx as int / 2 + 1) =~= spec_action_bytes(t));
        }
    } else {
        proof {
            assert(spec_action_bytes(t).subrange(0, idx as int / 2) =~= spec_action_bytes(t));
        }
    }
    out
}

/// What one sequence item asks the driver to do.
#[derive(Debug)]
pub enum PlannedAction {
    /// Open the TCP connection.
    Connect,
    /// Close the TCP connection.
    Disconnect,
    /// Send the routing-activation request and await its response.
    RoutingActivation,
    /// Send these UDS requests in order, each checked against its
    /// expect pattern.
    SendDiag(Vec<Vec<u8>>),
    /// Run the Security Access exchange at this level.
    SecurityAccess(u8),
    /// Flash this VBF file.
    Swdl(String),
    /// Sleep for the item's timeout.
    Delay,
    /// Nothing to do: an unknown name, a tolerated but useless
    /// action shape, or a vendor or format this build skips.
    NoOp,
}

/// The timeout an item's duration string denotes, with one second as
/// the default for an unparsable one.
pub open spec fn spec_item_timeout(s: Seq<char>) -> u64 {
    match spec_parse_duration(s) {
        Some(t) => t,
        None => 1000u64,
    }
}

/// What `plan_item` must decide for an item, case by case over the
/// item's name and action shape.
pub open spec fn spec_plan_outcome(
    item: SequenceItem,
    vendor: Seq<char>,
    r: Result<(PlannedAction, u64), TesterError>,
) -> bool {
    let nm = item.name@;
    let ok_timeout = (r matches Ok(p) ==> p.1 == spec_item_timeout(item.timeout@));
    let case = if nm =~= "socket"@ {
        match item.action {
            ActionValue::One(a) => if a@ =~= "connect"@ {
                r matches Ok(p) && p.0 is Connect
            } else if a@ =~= "disconnect"@ {
                r matches Ok(p) && p.0 is Disconnect
            } else {
                r matches Ok(p) && p.0 is NoOp
            },
            _ => r matches Ok(p) && p.0 is NoOp,
        }
    } else if nm =~= "send_doip"@ {
        match item.action {
            ActionValue::One(a) => if a@ =~= "activation"@ {
                r matches Ok(p) && p.0 is RoutingActivation
            } else {
                r matches Ok(p) && p.0 is NoOp
            },
            _ => r matches Ok(p) && p.0 is NoOp,
        }
    } else if nm =~= "send_diag"@ {
        match item.action {
            ActionValue::Many(actions) => r matches Ok(p) && (p.0 matches
                PlannedAction::SendDiag(reqs) && reqs.deep_view() =~= actions.deep_view()
                .map_values(|a: Seq<char>| spec_action_bytes(spec_strip_spaces(a)))),
            ActionValue::One(_) => r matches Ok(p) && p.0 is NoOp,
            ActionValue::Missing => r == Err::<(PlannedAction, u64), TesterError>(
                TesterError::InvalidData,
            ),
        }
    } else if nm.len() >= 15 && nm.subrange(0, 15) =~= "securityaccess_"@ {
        match spec_parse_hex(nm.skip(15)) {
            Some(v) => if v <= 255 {
                if vendor =~= "volvo"@ {
                    r matches Ok(p) && (p.0 matches PlannedAction::SecurityAccess(l) && l == v)
                } else {
                    r matches Ok(p) && p.0 is NoOp
                }
            } else {
                r == Err::<(PlannedAction, u64), TesterError>(TesterError::InvalidInput)
            },
            None => r == Err::<(PlannedAction, u64), TesterError>(TesterError::InvalidInput),
        }
    } else if nm =~= "swdl"@ {
        match item.action {
            ActionValue::Many(actions) => {
                let items = actions.deep_view();
                let fmt = spec_kv_lookup(items, "format"@);
                let path = spec_kv_lookup(items, "path"@);
                if fmt matches Some(f) && f =~= "vbf"@ {
                    r matches Ok(p) && (p.0 matches PlannedAction::Swdl(sp) && (match path {
                        Some(pv) => sp@ =~= pv,
                        None => sp@ =~= Seq::<char>::empty(),
                    }))
                } else {
                    r matches Ok(p) && p.0 is NoOp
                }
            },
            _ => r == Err::<(PlannedAction, u64), TesterError>(TesterError::InvalidData),
        }
    } else if nm =~= "delay"@ {
        r matches Ok(p) && p.0 is Delay
    } else {
        r matches Ok(p) && p.0 is NoOp
    };
    ok_timeout && case
}

/// Decides what a sequence item means: the primitive to run and the
/// timeout to run it under. Malformed action shapes and level strings
/// are refused as the sequence engine would refuse them; unknown
/// names are a no-op.
pub fn plan_item(item: &SequenceItem, vendor: &str) -> (r: Result<
    (PlannedAction, u64),
    TesterError,
>)
    ensures
        spec_plan_outcome(*item, vendor@, r),
{
    let timeout: u64 = match parse_duration_to_milliseconds(item.timeout.as_str()) {
        Some(t) => t,
        None => 1000,
    };
    let nm: &str = item.name.as_str();
    if str_eq(nm, "socket") {
        match &item.action {
            ActionValue::One(a) => {
                if str_eq(a.as_str(), "connect") {
                    Ok((PlannedAction::Connect, timeout))
                } else if str_eq(a.as_str(), "disconnect") {
                    Ok((PlannedAction::Disconnect, timeout))
                } else {
                    Ok((PlannedAction::NoOp, timeout))
                }
            },
            _ => Ok((PlannedAction::NoOp, timeout)),
        }
    } else if str_eq(nm, "send_doip") {
        match &item.action {
            ActionValue::One(a) => {
                if str_eq(a.as_str(), "activation") {
                    Ok((PlannedAction::RoutingActivation, timeout))
                } else {
                    Ok((PlannedAction::NoOp, timeout))
                }
            },
            _ => Ok((PlannedAction::NoOp, timeout)),
        }
    } else if str_eq(nm, "send_diag") {
        match &item.action {
            ActionValue::Many(actions) => {
                let mut reqs: Vec<Vec<u8>> = Vec::new();
                let mut k: usize = 0;
                while k < actions.len()
                    invariant
                        0 <= k <= actions@.len(),
                        reqs@.len() == k,
                        forall|j: int| 0 <= j < k ==> #[trigger] reqs@[j]@ == spec_action_bytes(
                            spec_strip_spaces(actions@[j]@),
                        ),
                    decreases actions@.len() - k,
                {
                    let parsed = parse_action_hex(actions[k].as_str());
                    reqs.push(parsed);
                    k = k + 1;
                }
                proof {
                    assert(reqs.deep_view() =~~= actions.deep_view().map_values(
                        |a: Seq<char>| spec_action_bytes(spec_strip_spaces(a)),
                    ));
                }
                Ok((PlannedAction::SendDiag(reqs), timeout))
            },
            ActionValue::One(_) => Ok((PlannedAction::NoOp, timeout)),
            ActionValue::Missing => Err(TesterError::InvalidData),
        }
    } else if str_starts_with(nm, "securityaccess_") {
        proof {
            reveal_strlit("securityaccess_");
        }
        let n = nm.unicode_len();
        let suffix = nm.substring_char(15, n);
        proof {
            assert(suffix@ =~= nm@.skip(15));
        }
        match parse_hex_digits(suffix, 255) {
            Ok(level) => {
                if str_eq(vendor, "volvo") {
                    Ok((PlannedAction::SecurityAccess(level as u8), timeout))
                } else {
                    Ok((PlannedAction::NoOp, timeout))
                }
            },
            Err(_) => Err(TesterError::InvalidInput),
        }
    } else if str_eq(nm, "swdl") {
        match &item.action {
            ActionValue::Many(actions) => {
                let fmt = find_action_value(actions, "format");
                let is_vbf = match &fmt {
                    Some(f) => str_eq(f.as_str(), "vbf"),
                    None => false,
                };
                if is_vbf {
                    let path = match find_action_value(actions, "path") {
                        Some(p) => p,
                        None => String::new(),
                    };
                    Ok((PlannedAction::Swdl(path), timeout))
                } else {
                    Ok((PlannedAction::NoOp, timeout))
                }
            },
            _ => Err(TesterError::InvalidData),
        }
    } else if str_eq(nm, "delay") {
        Ok((PlannedAction::Delay, timeout))
    } else {
        Ok((PlannedAction::NoOp, timeout))
    }
}

} // verus!
