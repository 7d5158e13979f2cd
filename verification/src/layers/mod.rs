//! The per-stage transforms, one module per stage, and the marker search
//! that locates a stage's payload inside the previous stage's decoded text.

pub mod layer0;
pub mod layer1;
pub mod layer2;
pub mod layer3;
pub mod layer4;
pub mod layer5;

use vstd::prelude::*;

use crate::errors::LayerError;

verus! {

/// ASCII whitespace, as trimmed from the ends of a located payload.
pub open spec fn is_ascii_ws(b: u8) -> bool {
    b == 32 || b == 9 || b == 10 || b == 12 || b == 13
}

/// The first index at or after `i` where `n` occurs as a contiguous
/// subsequence of `h`.
pub open spec fn find_sub_from(h: Seq<u8>, n: Seq<u8>, i: int) -> Option<int>
    decreases h.len() + 1 - i when 0 <= i
{
    if i + n.len() > h.len() {
        None
    } else if h.subrange(i, i + n.len()) == n {
        Some(i)
    } else {
        find_sub_from(h, n, i + 1)
    }
}

/// The sequence without its leading ASCII whitespace.
pub open spec fn trim_start(s: Seq<u8>) -> Seq<u8>
    decreases s.len(),
{
    if s.len() > 0 && is_ascii_ws(s[0]) {
        trim_start(s.skip(1))
    } else {
        s
    }
}

/// The sequence without its trailing ASCII whitespace.
pub open spec fn trim_end(s: Seq<u8>) -> Seq<u8>
    decreases s.len(),
{
    if s.len() > 0 && is_ascii_ws(s[s.len() - 1]) {
        trim_end(s.take(s.len() - 1))
    } else {
        s
    }
}

/// The sequence without ASCII whitespace at either end.
pub open spec fn trim_ascii(s: Seq<u8>) -> Seq<u8> {
    trim_end(trim_start(s))
}

/// Locates the first occurrence of the marker in the text and returns
/// everything from the marker to the end, whitespace-trimmed: the next
/// stage's payload.
#[verifier::rlimit(50)]
pub fn find_input(haystack: &[u8], needle: &[u8]) -> (r: Result<Vec<u8>, LayerError>)
    ensures
        match find_sub_from(haystack@, needle@, 0) {
            None => r matches Err(e) && e == LayerError::MarkerNotFound,
            Some(i) => r matches Ok(v) && v@ == trim_ascii(haystack@.skip(i)),
        },
{
    let h = Ghost(haystack@);
    let n = Ghost(needle@);
    let hn = haystack.len();
    let nn = needle.len();

    if nn > hn {
        return Err(LayerError::MarkerNotFound);
    }
    let limit = hn - nn;

    let mut i: usize = 0;
    let mut found = false;
    while !found && i <= limit
        invariant
            h@ == haystack@,
            n@ == needle@,
            hn == h@.len(),
            nn == n@.len(),
            nn <= hn,
            limit == hn - nn,
            i <= limit + 1,
            !found ==> find_sub_from(h@, n@, 0) == find_sub_from(h@, n@, i as int),
            found ==> find_sub_from(h@, n@, 0) == Some(i as int) && i + nn <= hn,
        decreases limit + 1 - i + (if found { 0int } else { 1int }),
    {
        let mut j: usize = 0;
        let mut matches = true;
        while j < nn
            invariant
                h@ == haystack@,
                n@ == needle@,
                hn == h@.len(),
                nn == n@.len(),
                i + nn <= hn,
                j <= nn,
                matches ==> forall|t: int| 0 <= t < j ==> h@[i + t] == n@[t],
                !matches ==> exists|t: int| 0 <= t < nn && h@[i + t] != n@[t],
            decreases nn - j,
        {
            if haystack[i + j] != needle[j] {
                proof {
                    assert(h@[i + j] != n@[j as int]);
                }
                matches = false;
                j = nn;
            } else {
                j = j + 1;
            }
        }
        if matches {
            proof {
                assert(h@.subrange(i as int, i + nn) =~= n@);
            }
            found = true;
        } else {
            proof {
                let t = choose|t: int| 0 <= t < nn && h@[i + t] != n@[t];
                assert(h@.subrange(i as int, i + nn)[t] == h@[i + t]);
                assert(h@.subrange(i as int, i + nn) != n@);
                assert(find_sub_from(h@, n@, i as int) == find_sub_from(h@, n@, i as int + 1));
            }
            i = i + 1;
        }
    }

    if !found {
        proof {
            assert(i + nn > hn);
            assert(find_sub_from(h@, n@, i as int) is None);
        }
        return Err(LayerError::MarkerNotFound);
    }

    // trim leading whitespace from the located suffix
    let mut a: usize = i;
    while a < hn && (haystack[a] == 32 || haystack[a] == 9 || haystack[a] == 10 || haystack[a] == 12
        || haystack[a] == 13)
        invariant
            h@ == haystack@,
            hn == h@.len(),
            i <= a <= hn,
            trim_start(h@.skip(i as int)) == trim_start(h@.skip(a as int)),
        decreases hn - a,
    {
        proof {
            assert(h@.skip(a as int).skip(1) =~= h@.skip(a as int + 1));
        }
        a = a + 1;
    }
    proof {
        if a == hn {
            assert(h@.skip(a as int) =~= Seq::<u8>::empty());
        }
        assert(trim_start(h@.skip(a as int)) == h@.skip(a as int));
    }

    // trim trailing whitespace
    let mut b: usize = hn;
    proof {
        assert(h@.skip(a as int) =~= h@.subrange(a as int, b as int));
    }
    while b > a && (haystack[b - 1] == 32 || haystack[b - 1] == 9 || haystack[b - 1] == 10
        || haystack[b - 1] == 12 || haystack[b - 1] == 13)
        invariant
            h@ == haystack@,
            hn == h@.len(),
            a <= b <= hn,
            trim_end(h@.skip(a as int)) == trim_end(h@.subrange(a as int, b as int)),
        decreases b,
    {
        proof {
            let cur = h@.subrange(a as int, b as int);
            assert(cur[cur.len() - 1] == h@[b - 1]);
            assert(cur.take(cur.len() - 1) =~= h@.subrange(a as int, b as int - 1));
        }
        b = b - 1;
    }
    proof {
        let cur = h@.subrange(a as int, b as int);
        if b == a {
            assert(cur =~= Seq::<u8>::empty());
        }
        assert(trim_end(cur) == cur);
    }

    let mut v: Vec<u8> = Vec::new();
    let mut k: usize = a;
    while k < b
        invariant
            h@ == haystack@,
            hn == h@.len(),
            a <= k <= b <= hn,
            v@ == h@.subrange(a as int, k as int),
        decreases b - k,
    {
        v.push(haystack[k]);
        proof {
            assert(v@ =~= h@.subrange(a as int, k as int + 1));
        }
        k = k + 1;
    }

    Ok(v)
}

} // verus!
