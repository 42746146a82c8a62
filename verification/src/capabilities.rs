use crate::error::{error_detail, security, SandboxError};
use crate::text::{
    chars_of, decimal, decimal_chars, lines, parse_u64_radix, parse_u64_spec, split_lines,
    strip_prefix, strip_prefix_chars, string_from_chars, trim, trim_chars,
};
use vstd::prelude::*;

verus! {

/// The five capability sets of a process, as bit masks.
#[derive(Debug, Clone, Copy, PartialEq, Eq, Structural)]
pub struct CapabilityMasks {
    pub inheritable: u64,
    pub permitted: u64,
    pub effective: u64,
    pub bounding: u64,
    pub ambient: u64,
}

/// The value of the first line of `status` that starts with `name:` and a
/// tab, read as a hexadecimal mask; `None` when no line does or its value is
/// no mask.
pub open spec fn status_mask(status: Seq<char>, name: Seq<char>) -> Option<u64> {
    let prefix = name + ":\t"@;
    let ls = lines(status);
    if exists|i: int| 0 <= i < ls.len() && strip_prefix(ls[i], prefix) is Some {
        let i = choose|i: int|
            0 <= i < ls.len() && strip_prefix(ls[i], prefix) is Some && forall|j: int|
                0 <= j < i ==> strip_prefix(ls[j], prefix) is None;
        parse_u64_spec(strip_prefix(ls[i], prefix)->0, 16)
    } else {
        None
    }
}

proof fn lemma_first_match_unique(ls: Seq<Seq<char>>, prefix: Seq<char>, i: int)
    requires
        0 <= i < ls.len(),
        strip_prefix(ls[i], prefix) is Some,
        forall|j: int| 0 <= j < i ==> strip_prefix(ls[j], prefix) is None,
    ensures
        (choose|k: int|
            0 <= k < ls.len() && strip_prefix(ls[k], prefix) is Some && forall|j: int|
                0 <= j < k ==> strip_prefix(ls[j], prefix) is None) == i,
{
    let k = choose|k: int|
        0 <= k < ls.len() && strip_prefix(ls[k], prefix) is Some && forall|j: int|
            0 <= j < k ==> strip_prefix(ls[j], prefix) is None;
    assert(0 <= k < ls.len() && strip_prefix(ls[k], prefix) is Some && forall|j: int|
        0 <= j < k ==> strip_prefix(ls[j], prefix) is None);
    if k < i {
        assert(strip_prefix(ls[k], prefix) is None);
    }
    if k > i {
        assert(strip_prefix(ls[i], prefix) is None);
    }
}

/// The message that reports an unreadable mask.
pub open spec fn mask_message(name: Seq<char>) -> Seq<char> {
    "cannot read "@ + name
}

pub fn parse_mask(status: &str, name: &str) -> (out: Result<u64, SandboxError>)
    ensures
        match out {
            Ok(mask) => status_mask(status@, name@) == Some(mask),
            Err(e) => status_mask(status@, name@) is None && e is Security && error_detail(&e)
                == mask_message(name@),
        },
{
    let mut prefix = chars_of(name);
    let mut tail = chars_of(":\t");
    prefix.append(&mut tail);
    let text = chars_of(status);
    let all = split_lines(&text);
    let ghost ls = all@.map_values(|w: Vec<char>| w@);
    assert(ls.len() == all.len());
    let mut i: usize = 0;
    while i < all.len()
        invariant
            ls == all@.map_values(|w: Vec<char>| w@),
            ls == lines(status@),
            prefix@ == name@ + ":\t"@,
            i <= all.len(),
            forall|j: int| 0 <= j < i ==> strip_prefix(#[trigger] ls[j], prefix@) is None,
        decreases all.len() - i,
    {
        assert(ls[i as int] == all@[i as int]@);
        match strip_prefix_chars(&all[i], &prefix) {
            Some(value) => {
                proof {
                    lemma_first_match_unique(ls, prefix@, i as int);
                }
                return match parse_u64_radix(&value, 16) {
                    Some(mask) => Ok(mask),
                    None => Err(mask_error(name)),
                };
            },
            None => {},
        }
        i += 1;
    }
    Err(mask_error(name))
}

fn mask_error(name: &str) -> (e: SandboxError)
    ensures
        e is Security,
        error_detail(&e) == mask_message(name@),
{
    let mut message = chars_of("cannot read ");
    let mut tail = chars_of(name);
    message.append(&mut tail);
    SandboxError::Security(string_from_chars(&message))
}

pub open spec fn masks_of(status: Seq<char>) -> Option<CapabilityMasks> {
    match (
        status_mask(status, "CapInh"@),
        status_mask(status, "CapPrm"@),
        status_mask(status, "CapEff"@),
        status_mask(status, "CapBnd"@),
        status_mask(status, "CapAmb"@),
    ) {
        (Some(i), Some(p), Some(e), Some(b), Some(a)) => Some(
            CapabilityMasks { inheritable: i, permitted: p, effective: e, bounding: b, ambient: a },
        ),
        _ => None,
    }
}

/// The first capability set, in reading order, whose mask `status` lacks.
pub open spec fn first_missing_mask(status: Seq<char>) -> Seq<char> {
    if status_mask(status, "CapInh"@) is None {
        "CapInh"@
    } else if status_mask(status, "CapPrm"@) is None {
        "CapPrm"@
    } else if status_mask(status, "CapEff"@) is None {
        "CapEff"@
    } else if status_mask(status, "CapBnd"@) is None {
        "CapBnd"@
    } else {
        "CapAmb"@
    }
}

/// The capability masks that a `/proc/<pid>/status` text reports; names
/// the first set whose mask is missing or malformed.
pub fn parse_capability_masks(status: &str) -> (out: Result<CapabilityMasks, SandboxError>)
    ensures
        match out {
            Ok(m) => masks_of(status@) == Some(m),
            Err(e) => masks_of(status@) is None && e is Security && error_detail(&e)
                == mask_message(first_missing_mask(status@)),
        },
{
    let inheritable = match parse_mask(status, "CapInh") {
        Ok(m) => m,
        Err(e) => return Err(e),
    };
    let permitted = match parse_mask(status, "CapPrm") {
        Ok(m) => m,
        Err(e) => return Err(e),
    };
    let effective = match parse_mask(status, "CapEff") {
        Ok(m) => m,
        Err(e) => return Err(e),
    };
    let bounding = match parse_mask(status, "CapBnd") {
        Ok(m) => m,
        Err(e) => return Err(e),
    };
    let ambient = match parse_mask(status, "CapAmb") {
        Ok(m) => m,
        Err(e) => return Err(e),
    };
    Ok(CapabilityMasks { inheritable, permitted, effective, bounding, ambient })
}

/// The highest capability number to drop: what `cap_last_cap` says when it
/// reads as a number (63 otherwise), at most 255.
pub open spec fn last_capability_of(text: Option<Seq<char>>) -> u32 {
    let value: u64 = match text {
        Some(t) => match parse_u64_spec(trim(t), 10) {
            Some(v) => if v <= u32::MAX {
                v
            } else {
                63
            },
            None => 63,
        },
        None => 63,
    };
    if value <= 255 {
        value as u32
    } else {
        255
    }
}

pub fn last_capability(text: Option<&str>) -> (last: u32)
    ensures
        last == last_capability_of(
            match text {
                Some(t) => Some(t@),
                None => None,
            },
        ),
{
    let value: u64 = match text {
        Some(t) => {
            let chars = chars_of(t);
            let trimmed = trim_chars(&chars);
            match parse_u64_radix(&trimmed, 10) {
                Some(v) => if v <= 4294967295u64 {
                    v
                } else {
                    63
                },
                None => 63,
            }
        },
        None => 63,
    };
    if value <= 255 {
        value as u32
    } else {
        255
    }
}

pub open spec fn all_cleared(m: CapabilityMasks) -> bool {
    m.inheritable == 0 && m.permitted == 0 && m.effective == 0 && m.bounding == 0 && m.ambient
        == 0
}

/// How `{:?}` prints the masks.
pub open spec fn masks_debug(m: CapabilityMasks) -> Seq<char> {
    "CapabilityMasks { inheritable: "@ + decimal(m.inheritable as nat) + ", permitted: "@
        + decimal(m.permitted as nat) + ", effective: "@ + decimal(m.effective as nat)
        + ", bounding: "@ + decimal(m.bounding as nat) + ", ambient: "@ + decimal(
        m.ambient as nat,
    ) + " }"@
}

fn push_str(out: &mut Vec<char>, text: &str)
    ensures
        final(out)@ == old(out)@ + text@,
{
    let mut chars = chars_of(text);
    out.append(&mut chars);
}

fn push_decimal(out: &mut Vec<char>, value: u64)
    ensures
        final(out)@ == old(out)@ + decimal(value as nat),
{
    let mut chars = decimal_chars(value);
    out.append(&mut chars);
}

/// After dropping, every capability set must be empty.
pub fn require_cleared(masks: CapabilityMasks) -> (out: Result<(), SandboxError>)
    ensures
        match out {
            Ok(()) => all_cleared(masks),
            Err(e) => !all_cleared(masks) && e is Security && error_detail(&e)
                == "capability masks remain set: "@ + masks_debug(masks),
        },
{
    if masks.inheritable == 0 && masks.permitted == 0 && masks.effective == 0 && masks.bounding
        == 0 && masks.ambient == 0 {
        return Ok(());
    }
    let mut text: Vec<char> = Vec::new();
    push_str(&mut text, "capability masks remain set: ");
    push_str(&mut text, "CapabilityMasks { inheritable: ");
    push_decimal(&mut text, masks.inheritable);
    push_str(&mut text, ", permitted: ");
    push_decimal(&mut text, masks.permitted);
    push_str(&mut text, ", effective: ");
    push_decimal(&mut text, masks.effective);
    push_str(&mut text, ", bounding: ");
    push_decimal(&mut text, masks.bounding);
    push_str(&mut text, ", ambient: ");
    push_decimal(&mut text, masks.ambient);
    push_str(&mut text, " }");
    assert(text@ =~= "capability masks remain set: "@ + masks_debug(masks));
    Err(SandboxError::Security(string_from_chars(&text)))
}

} // verus!
