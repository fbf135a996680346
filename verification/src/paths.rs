//! Joining an include pattern under the directory of the including file.

use vstd::prelude::*;

verus! {

/// Where an include pattern points: an absolute pattern (leading `/`)
/// stands as it is; a relative one is joined under the base directory with
/// a single separator.
pub open spec fn spec_include_path(base: Seq<char>, target: Seq<char>) -> Seq<char> {
    if target.len() > 0 && target[0] == '/' {
        target
    } else if base.len() == 0 {
        target
    } else if base[base.len() - 1] == '/' {
        base + target
    } else {
        base + seq!['/'] + target
    }
}

/// Join the target pattern of an `$include` directive under the base
/// directory; an absolute target is used verbatim.
pub fn get_include_path(base_path: &str, target_path: &str) -> (r: String)
    ensures
        r@ == spec_include_path(base_path@, target_path@),
{
    let tl = target_path.unicode_len();
    if tl > 0 && target_path.get_char(0) == '/' {
        return target_path.to_owned();
    }
    let bl = base_path.unicode_len();
    if bl == 0 {
        return target_path.to_owned();
    }
    let mut out = base_path.to_owned();
    if out.as_str().get_char(bl - 1) != '/' {
        out.append("/");
        proof {
            reveal_strlit("/");
            assert(("/")@ =~= seq!['/']);
        }
    }
    out.append(target_path);
    out
}

} // verus!
