//! Patch-file emission: a standalone file that overrides one archive
//! resource at runtime.
//!
//! A patch file is exactly `[type tag: 1 byte][header size: 1 byte, always 0]`
//! followed by the resource's raw payload bytes as stored in the data file
//! (not re-decompressed). Its name is `{number}.{SCR|HEP}`, the extension
//! encoding the resource type; the patch path handles scripts and heaps only
//! and rejects every other type before any output happens.

use vstd::prelude::*;
use vstd::string::StringExecFns;

use crate::datafile::RawContents;
use crate::error::PatchError;
use crate::restype::{spec_tag_of, ResourceType};

verus! {

/// The decimal digit character for one digit value.
pub open spec fn spec_dec_digit(d: nat) -> char {
    if d == 0 {
        '0'
    } else if d == 1 {
        '1'
    } else if d == 2 {
        '2'
    } else if d == 3 {
        '3'
    } else if d == 4 {
        '4'
    } else if d == 5 {
        '5'
    } else if d == 6 {
        '6'
    } else if d == 7 {
        '7'
    } else if d == 8 {
        '8'
    } else {
        '9'
    }
}

/// The decimal numeral of a number, without leading zeroes (a lone zero for
/// zero itself).
pub open spec fn spec_dec(n: nat) -> Seq<char>
    decreases n,
{
    if n < 10 {
        seq![spec_dec_digit(n)]
    } else {
        spec_dec(n / 10).push(spec_dec_digit(n % 10))
    }
}

/// The file-name extension that encodes a resource type on the patch path,
/// when the type is handled there.
pub open spec fn spec_patch_ext(t: ResourceType) -> Option<Seq<char>> {
    match t {
        ResourceType::Script => Some("SCR"@),
        ResourceType::Heap => Some("HEP"@),
        _ => None,
    }
}

/// The name of the patch file for one resource, when its type is handled.
pub open spec fn spec_patch_name(t: ResourceType, num: u16) -> Option<Seq<char>> {
    match spec_patch_ext(t) {
        None => None,
        Some(ext) => Some(spec_dec(num as nat) + seq!['.'] + ext),
    }
}

/// The bytes of the patch file for one resource: the type tag, a zero header
/// size, then the raw payload exactly as stored.
pub open spec fn spec_patch_bytes(t: ResourceType, payload: Seq<u8>) -> Seq<u8> {
    seq![spec_tag_of(t), 0u8] + payload
}

/// One decimal digit as a string.
fn dec_digit_str(d: u16) -> (r: &'static str)
    requires
        d < 10,
    ensures
        r@ == seq![spec_dec_digit(d as nat)],
{
    proof {
        reveal_strlit("0");
        reveal_strlit("1");
        reveal_strlit("2");
        reveal_strlit("3");
        reveal_strlit("4");
        reveal_strlit("5");
        reveal_strlit("6");
        reveal_strlit("7");
        reveal_strlit("8");
        reveal_strlit("9");
    }
    let r = if d == 0 {
        "0"
    } else if d == 1 {
        "1"
    } else if d == 2 {
        "2"
    } else if d == 3 {
        "3"
    } else if d == 4 {
        "4"
    } else if d == 5 {
        "5"
    } else if d == 6 {
        "6"
    } else if d == 7 {
        "7"
    } else if d == 8 {
        "8"
    } else {
        "9"
    };
    proof {
        assert(r@ =~= seq![spec_dec_digit(d as nat)]);
    }
    r
}

/// The decimal numeral of a number, as a string.
pub fn dec_string(n: u16) -> (r: String)
    ensures
        r@ == spec_dec(n as nat),
    decreases n,
{
    if n < 10 {
        dec_digit_str(n).to_owned()
    } else {
        let mut s = dec_string(n / 10);
        s.append(dec_digit_str(n % 10));
        proof {
            assert(spec_dec((n / 10) as nat) + seq![spec_dec_digit((n % 10) as nat)] =~= spec_dec(
                n as nat,
            ));
        }
        s
    }
}

/// The name of the patch file for one resource, or a rejection for a type the
/// patch path does not handle — decided before any output happens.
pub fn patch_file_name(t: ResourceType, num: u16) -> (r: Result<String, PatchError>)
    ensures
        match r {
            Ok(name) => spec_patch_name(t, num) == Some(name@),
            Err(e) => spec_patch_name(t, num) is None && e == PatchError::UnsupportedResourceType,
        },
{
    let ext = match t {
        ResourceType::Script => "SCR",
        ResourceType::Heap => "HEP",
        _ => {
            return Err(PatchError::UnsupportedResourceType);
        },
    };
    let mut name = dec_string(num);
    name.append(".");
    name.append(ext);
    proof {
        reveal_strlit(".");
        assert(spec_dec(num as nat) + "."@ + ext@ =~= spec_dec(num as nat) + seq!['.'] + ext@);
    }
    Ok(name)
}

/// The bytes of the patch file for one raw resource, or a rejection for a
/// type the patch path does not handle.
pub fn patch_contents(t: ResourceType, raw: &RawContents) -> (r: Result<Vec<u8>, PatchError>)
    ensures
        match r {
            Ok(v) => spec_patch_ext(t) is Some && v@ == spec_patch_bytes(t, raw@.payload),
            Err(e) => spec_patch_ext(t) is None && e == PatchError::UnsupportedResourceType,
        },
{
    match t {
        ResourceType::Script => (),
        ResourceType::Heap => (),
        _ => {
            return Err(PatchError::UnsupportedResourceType);
        },
    }
    let mut v: Vec<u8> = Vec::new();
    v.push(t.to_tag());
    v.push(0);
    v.extend_from_slice(raw.payload.as_slice());
    proof {
        assert(v@ =~= spec_patch_bytes(t, raw@.payload));
    }
    Ok(v)
}

} // verus!
