//! Where log lines say they come from.
use vstd::prelude::*;
use vstd::utf8::{valid_utf8, is_char_boundary, encode_utf8_valid_utf8};
use vstd::string::StringSliceAdditionalSpecFns;

verus! {

/// The bytes of this crate's name, which every module path starts with.
pub open spec fn crate_name() -> Seq<u8> {
    seq![0x6Du8, 0x73u8, 0x74u8, 0x75u8]
}

/// A module path without the crate's name in front, where it is there.
pub open spec fn strip_crate(b: Seq<u8>) -> Seq<u8> {
    if b.len() >= 4 && b.take(4) == crate_name() {
        b.skip(4)
    } else {
        b
    }
}

/// A path without the `::` separators at its start.
pub open spec fn trim_separators(b: Seq<u8>) -> Seq<u8>
    decreases b.len(),
{
    if b.len() >= 2 && b[0] == 0x3Au8 && b[1] == 0x3Au8 {
        trim_separators(b.skip(2))
    } else {
        b
    }
}

/// A split after ASCII bytes falls on a character boundary.
proof fn lemma_ascii_boundary(b: Seq<u8>, idx: int)
    requires
        valid_utf8(b),
        0 <= idx <= b.len(),
        forall|j: int| 0 <= j < idx ==> b[j] < 0x80,
    ensures
        is_char_boundary(b, idx),
    decreases idx,
{
    if idx > 0 {
        let rest = b.subrange(1, b.len() as int);
        assert(vstd::utf8::pop_first_scalar(b) == rest);
        assert forall|j: int| 0 <= j < idx - 1 implies rest[j] < 0x80 by {
            assert(rest[j] == b[j + 1]);
        }
        lemma_ascii_boundary(rest, idx - 1);
    }
}

/// `module_path!()` without the crate's name: `runtime::pipeline`, or
/// `engine` for the crate's root.
pub fn target(module: &str) -> (r: &str)
    ensures
        if trim_separators(strip_crate(module.spec_bytes())).len() == 0 {
            r@ == "engine"@
        } else {
            r.spec_bytes() == trim_separators(strip_crate(module.spec_bytes()))
        },
{
    let bytes = module.as_bytes();
    let n = bytes.len();
    let mut start: usize = 0;
    if n >= 4 && bytes[0] == 0x6D && bytes[1] == 0x73 && bytes[2] == 0x74 && bytes[3] == 0x75 {
        start = 4;
    }
    proof {
        if n >= 4 && bytes@.take(4) == crate_name() {
            assert(bytes@[0] == 0x6D && bytes@[1] == 0x73 && bytes@[2] == 0x74 && bytes@[3] == 0x75);
        }
        if start == 4 {
            assert(bytes@.take(4) =~= crate_name());
        }
        assert(bytes@.skip(0) =~= bytes@);
    }
    while n - start >= 2 && bytes[start] == 0x3A && bytes[start + 1] == 0x3A
        invariant
            n == bytes@.len(),
            start <= n,
            trim_separators(strip_crate(bytes@)) == trim_separators(bytes@.skip(start as int)),
            forall|j: int| 0 <= j < start ==> bytes@[j] < 0x80,
        decreases n - start,
    {
        proof {
            assert(bytes@.skip(start as int).skip(2) =~= bytes@.skip(start + 2));
        }
        start = start + 2;
    }
    proof {
        if start < n {
            assert(!(bytes@.skip(start as int).len() >= 2 && bytes@.skip(start as int)[0] == 0x3Au8
                && bytes@.skip(start as int)[1] == 0x3Au8));
        }
    }
    if start == n {
        proof {
            assert(bytes@.skip(start as int).len() == 0);
        }
        return "engine";
    }
    proof {
        encode_utf8_valid_utf8(module@);
        lemma_ascii_boundary(bytes@, start as int);
    }
    let (_, rest) = module.split_at(start);
    proof {
        assert(bytes@.skip(start as int) =~= bytes@.subrange(start as int, n as int));
    }
    rest
}

} // verus!
