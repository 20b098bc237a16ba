//! Pure text rules of connection setup: the Origin header value and the
//! splitting of operator-supplied `"key: value"` header lines.

use vstd::prelude::*;

verus! {

/// The scheme part of an Origin value: `wss` maps to `https`, anything
/// else to `http`, with the `"://"` separator appended.
pub open spec fn origin_prefix(scheme: Seq<u8>) -> Seq<u8> {
    (if scheme == seq![119u8, 115u8, 115u8] {
        seq![104u8, 116u8, 116u8, 112u8, 115u8]
    } else {
        seq![104u8, 116u8, 116u8, 112u8]
    }) + seq![58u8, 47u8, 47u8]
}

/// The Origin value derived from a WebSocket URL's scheme and host.
pub open spec fn spec_origin(scheme: Seq<u8>, host: Seq<u8>) -> Seq<u8> {
    origin_prefix(scheme) + host
}

/// The Origin string for a WebSocket URL: its scheme with `ws`/`wss`
/// replaced by `http`/`https`, then `"://"` and the host.
pub fn origin_for(scheme: &Vec<u8>, host: &Vec<u8>) -> (r: Vec<u8>)
    ensures
        r@ == spec_origin(scheme@, host@),
{
    let is_wss = scheme.len() == 3 && scheme[0] == 119 && scheme[1] == 115 && scheme[2] == 115;
    let mut r: Vec<u8> = Vec::new();
    if is_wss {
        proof {
            assert(scheme@ =~= seq![119u8, 115u8, 115u8]);
        }
        r.push(104);
        r.push(116);
        r.push(116);
        r.push(112);
        r.push(115);
    } else {
        proof {
            assert(scheme@ != seq![119u8, 115u8, 115u8]) by {
                if scheme@ == seq![119u8, 115u8, 115u8] {
                    assert(scheme@.len() == 3);
                    assert(scheme@[0] == 119u8);
                    assert(scheme@[1] == 115u8);
                    assert(scheme@[2] == 115u8);
                }
            }
        }
        r.push(104);
        r.push(116);
        r.push(116);
        r.push(112);
    }
    r.push(58);
    r.push(47);
    r.push(47);
    proof {
        assert(r@ =~= origin_prefix(scheme@));
    }
    let ghost prefix = r@;
    let mut k: usize = 0;
    while k < host.len()
        invariant
            k <= host.len(),
            r@ == prefix + host@.take(k as int),
            prefix == origin_prefix(scheme@),
        decreases host.len() - k,
    {
        proof {
            assert(host@.take(k + 1) =~= host@.take(k as int).push(host@[k as int]));
            assert(prefix + host@.take(k + 1) =~= (prefix + host@.take(k as int)).push(
                host@[k as int],
            ));
        }
        r.push(host[k]);
        k += 1;
    }
    proof {
        assert(host@.take(host@.len() as int) =~= host@);
    }
    r
}

/// Split one operator-supplied header line at its first colon into a
/// key and a value, or report that it holds no colon and is invalid.
pub fn split_header(h: &Vec<u8>) -> (r: Option<(Vec<u8>, Vec<u8>)>)
    ensures
        r is Some <==> h@.contains(58u8),
        r is Some ==> {
            let key = r.unwrap().0;
            let val = r.unwrap().1;
            &&& h@ == key@ + seq![58u8] + val@
            &&& !key@.contains(58u8)
        },
{
    let mut key: Vec<u8> = Vec::new();
    let mut i: usize = 0;
    while i < h.len()
        invariant
            i <= h.len(),
            key@ == h@.take(i as int),
            forall|j: int| 0 <= j < i ==> h@[j] != 58u8,
        decreases h.len() - i,
    {
        let b = h[i];
        if b == 58 {
            let mut val: Vec<u8> = Vec::new();
            let mut j: usize = i + 1;
            while j < h.len()
                invariant
                    i < h.len(),
                    i + 1 <= j <= h.len(),
                    h@[i as int] == 58u8,
                    key@ == h@.take(i as int),
                    val@ == h@.subrange(i + 1, j as int),
                decreases h.len() - j,
            {
                proof {
                    assert(h@.subrange(i + 1, j + 1) =~= h@.subrange(i + 1, j as int).push(
                        h@[j as int],
                    ));
                }
                val.push(h[j]);
                j += 1;
            }
            proof {
                assert(h@ =~= key@ + seq![58u8] + val@);
                assert(h@.contains(58u8)) by {
                    assert(h@[i as int] == 58u8);
                }
                assert(!key@.contains(58u8)) by {
                    assert(forall|t: int| 0 <= t < key@.len() ==> key@[t] != 58u8);
                }
            }
            return Some((key, val));
        }
        proof {
            assert(h@.take(i + 1) =~= h@.take(i as int).push(h@[i as int]));
        }
        key.push(b);
        i += 1;
    }
    proof {
        assert(!h@.contains(58u8)) by {
            assert(forall|j: int| 0 <= j < h@.len() ==> h@[j] != 58u8);
        }
    }
    None
}

} // verus!
