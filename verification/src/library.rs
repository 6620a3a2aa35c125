//! Plugin libraries: the key a library file is known by.
use vstd::prelude::*;
use vstd::string::{StrSliceExecFns, StringExecFns};

verus! {

/// The key of the library whose file stem is `stem`: the stem without a
/// leading `lib`, with underscores as dashes.
pub open spec fn spec_library_key(stem: Seq<char>) -> Seq<char> {
    let rest = if stem.len() >= 3 && stem[0] == 'l' && stem[1] == 'i' && stem[2] == 'b' {
        stem.skip(3)
    } else {
        stem
    };
    rest.map_values(|c: char| if c == '_' { '-' } else { c })
}

/// The key the library with file stem `stem` is loaded under.
pub fn library_key(stem: &str) -> (r: String)
    ensures
        r@ == spec_library_key(stem@),
{
    let n = stem.unicode_len();
    let start: usize = if n >= 3 && stem.get_char(0) == 'l' && stem.get_char(1) == 'i' && stem.get_char(2) == 'b' {
        3
    } else {
        0
    };
    let ghost rest = stem@.skip(start as int);
    let mut key = String::new();
    let mut i: usize = start;
    while i < n
        invariant
            start <= i <= n,
            n == stem@.len(),
            rest == stem@.skip(start as int),
            key@ == rest.take(i - start).map_values(|c: char| if c == '_' { '-' } else { c }),
        decreases n - i,
    {
        let c = stem.get_char(i);
        let ghost before = key@;
        proof {
            reveal_strlit("-");
            assert("-"@ =~= seq!['-']);
        }
        if c == '_' {
            key.append("-");
        } else {
            key.append(stem.substring_char(i, i + 1));
        }
        proof {
            assert(rest[i - start] == c);
            assert(rest.take(i + 1 - start) =~= rest.take(i - start).push(c));
            assert(stem@.subrange(i as int, i + 1) =~= seq![c]);
            let f = |x: char| if x == '_' { '-' } else { x };
            assert(rest.take(i + 1 - start).map_values(f) =~= rest.take(i - start).map_values(f).push(f(c)));
            assert(key@ =~= before + seq![f(c)]);
        }
        i = i + 1;
    }
    proof {
        assert(rest.take(n - start) =~= rest);
    }
    key
}

} // verus!
