use vstd::prelude::*;

verus! {

/// Character-for-character equality of two string slices.
pub fn str_eq(a: &str, b: &str) -> (r: bool)
    ensures
        r == (a@ == b@),
{
    let x: String = a.to_owned();
    let y: String = b.to_owned();
    x == y
}

/// ASCII case normalization of one character: an upper-case letter becomes
/// its lower-case form, everything else stays as it is.
pub open spec fn lower_char(c: char) -> char {
    if ('A' as u32) <= (c as u32) && (c as u32) <= ('Z' as u32) {
        ((c as u32) + 32) as char
    } else {
        c
    }
}

/// A text with every ASCII upper-case letter lowered.
pub open spec fn lower_text(s: Seq<char>) -> Seq<char> {
    Seq::new(s.len(), |i: int| lower_char(s[i]))
}

/// Whether `a`, ASCII-lowercased, equals `b` character for character; `b`
/// is expected already in its normalized form.
#[verifier::loop_isolation(false)]
pub fn lowered_eq(a: &str, b: &str) -> (r: bool)
    ensures
        r == (lower_text(a@) == b@),
{
    let na = a.unicode_len();
    let nb = b.unicode_len();
    if na != nb {
        proof {
            assert(lower_text(a@).len() == a@.len());
        }
        return false;
    }
    let mut i: usize = 0;
    while i < na
        invariant
            0 <= i <= na,
            forall|k: int| 0 <= k < i ==> lower_char(a@[k]) == b@[k],
        decreases na - i,
    {
        let xa = a.get_char(i) as u32;
        let xb = b.get_char(i) as u32;
        let la: u32 = if xa >= ('A' as u32) && xa <= ('Z' as u32) {
            xa + 32
        } else {
            xa
        };
        proof {
            assert((lower_char(a@[i as int]) as u32) == la);
        }
        if la != xb {
            proof {
                assert(lower_char(a@[i as int]) != b@[i as int]);
                assert(lower_text(a@)[i as int] != b@[i as int]);
            }
            return false;
        }
        i = i + 1;
    }
    proof {
        assert(lower_text(a@) =~= b@);
    }
    true
}

} // verus!
