//! Scan targets as plain values: an IP address is held by its binary
//! representation, so that resolver output can be deduplicated and put
//! into one canonical, reproducible order.

use vstd::prelude::*;

verus! {

/// An IP address by its binary representation: a v4 address as its
/// 32-bit big-endian value, a v6 address as its 128-bit big-endian value.
/// Every v4 address orders before every v6 address.
#[derive(Debug, Clone, Copy, PartialEq, Eq, Structural)]
pub enum Address {
    V4(u32),
    V6(u128),
}

/// Total order on addresses: v4 before v6, then numeric on the
/// big-endian value. This matches byte-wise comparison of the raw
/// address bytes within each family.
pub open spec fn addr_key(a: Address) -> int {
    match a {
        Address::V4(x) => x as int,
        Address::V6(x) => 0x1_0000_0000 + x as int,
    }
}

/// `addr_key` separates distinct addresses, so sorting by it also
/// deduplicates.
pub proof fn lemma_addr_key_injective(a: Address, b: Address)
    requires
        addr_key(a) == addr_key(b),
    ensures
        a == b,
{
}

/// Strict comparison in the canonical address order.
pub fn addr_lt(a: &Address, b: &Address) -> (r: bool)
    ensures
        r == (addr_key(*a) < addr_key(*b)),
{
    match (a, b) {
        (Address::V4(x), Address::V4(y)) => x < y,
        (Address::V4(_), Address::V6(_)) => true,
        (Address::V6(_), Address::V4(_)) => false,
        (Address::V6(x), Address::V6(y)) => x < y,
    }
}

/// A sequence of addresses that is strictly ascending in the canonical
/// order (and therefore free of duplicates).
pub open spec fn strictly_sorted(s: Seq<Address>) -> bool {
    forall|i: int, j: int| 0 <= i < j < s.len() ==> addr_key(s[i]) < addr_key(s[j])
}

/// The canonical form of resolver output: the same addresses, each once,
/// in strictly ascending canonical order. Lookup order, which the name
/// service does not fix, does not influence the result.
pub fn canonical_addresses(addrs: &Vec<Address>) -> (r: Vec<Address>)
    ensures
        strictly_sorted(r@),
        forall|a: Address| r@.contains(a) <==> addrs@.contains(a),
{
    let mut out: Vec<Address> = Vec::new();
    let mut i: usize = 0;
    while i < addrs.len()
        invariant
            0 <= i <= addrs@.len(),
            strictly_sorted(out@),
            forall|a: Address| out@.contains(a) <==> addrs@.subrange(0, i as int).contains(a),
        decreases addrs@.len() - i,
    {
        let ghost pre = addrs@.subrange(0, i as int);
        let ghost post = addrs@.subrange(0, i + 1);
        proof {
            assert(post.drop_last() =~= pre);
            assert(post.last() == addrs@[i as int]);
            assert forall|a: Address| post.contains(a) <==> pre.contains(a) || a == addrs@[i as int] by {
                if post.contains(a) {
                    let k = choose|k: int| 0 <= k < post.len() && post[k] == a;
                    if k < pre.len() {
                        assert(pre[k] == a);
                    }
                }
                if pre.contains(a) {
                    let k = choose|k: int| 0 <= k < pre.len() && pre[k] == a;
                    assert(post[k] == a);
                }
                if a == addrs@[i as int] {
                    assert(post[post.len() - 1] == a);
                }
            }
        }
        let x = addrs[i];
        insert_address(&mut out, x);
        i += 1;
    }
    assert(addrs@.subrange(0, addrs@.len() as int) =~= addrs@);
    out
}

/// Insert one address into a strictly sorted vector, keeping it strictly
/// sorted; an address already present is left alone.
fn insert_address(out: &mut Vec<Address>, x: Address)
    requires
        strictly_sorted(old(out)@),
    ensures
        strictly_sorted(final(out)@),
        forall|a: Address| final(out)@.contains(a) <==> old(out)@.contains(a) || a == x,
{
    let ghost orig = out@;
    // Position of the first element not below `x`.
    let mut j: usize = 0;
    while j < out.len() && addr_lt(&out[j], &x)
        invariant
            0 <= j <= out@.len(),
            out@ == orig,
            forall|k: int| 0 <= k < j ==> addr_key(out@[k]) < addr_key(x),
        decreases out@.len() - j,
    {
        j += 1;
    }
    if j < out.len() {
        let same = {
            let cur = out[j];
            !addr_lt(&x, &cur)
        };
        if same {
            proof {
                lemma_addr_key_injective(orig[j as int], x);
                assert(orig.contains(x)) by {
                    assert(orig[j as int] == x);
                }
            }
            return;
        }
    }
    out.insert(j, x);
    proof {
        let now = out@;
        assert(now.len() == orig.len() + 1);
        assert forall|i2: int, k: int| 0 <= i2 < k < now.len() implies addr_key(now[i2]) < addr_key(
            now[k],
        ) by {
            if i2 < j && k == j {
                assert(now[i2] == orig[i2]);
            } else if i2 == j && k > j {
                assert(now[k] == orig[k - 1]);
                assert(addr_key(x) < addr_key(orig[j as int]));
                if k - 1 > j {
                    assert(addr_key(orig[j as int]) < addr_key(orig[k - 1]));
                }
            } else if i2 < j && k > j {
                assert(now[i2] == orig[i2]);
                assert(now[k] == orig[k - 1]);
                assert(addr_key(orig[i2]) < addr_key(x));
                assert(addr_key(x) < addr_key(orig[j as int]));
                if k - 1 > j {
                    assert(addr_key(orig[j as int]) < addr_key(orig[k - 1]));
                } else {
                    assert(k - 1 == j);
                }
            } else if i2 > j && k > j {
                assert(now[i2] == orig[i2 - 1]);
                assert(now[k] == orig[k - 1]);
            } else {
                assert(i2 < j && k < j);
                assert(now[i2] == orig[i2]);
                assert(now[k] == orig[k]);
            }
        }
        assert forall|a: Address| now.contains(a) <==> orig.contains(a) || a == x by {
            if now.contains(a) {
                let k = choose|k: int| 0 <= k < now.len() && now[k] == a;
                if k < j {
                    assert(orig[k] == a);
                } else if k == j {
                    assert(a == x);
                } else {
                    assert(orig[k - 1] == a);
                }
            }
            if orig.contains(a) {
                let k = choose|k: int| 0 <= k < orig.len() && orig[k] == a;
                if k < j {
                    assert(now[k] == a);
                } else {
                    assert(now[k + 1] == a);
                }
            }
            if a == x {
                assert(now[j as int] == a);
            }
        }
    }
}

/// Target resolution failed even though the name lookup itself returned:
/// it produced no addresses at all.
#[derive(Debug, Clone, Copy, PartialEq, Eq, Structural)]
pub enum ResolveError {
    NoAddresses,
}

impl ResolveError {
    pub open spec fn spec_message(self) -> Seq<char> {
        "no ip addresses found for target"@
    }

    /// A human-readable account of the failure.
    pub fn message(&self) -> (m: &'static str)
        ensures
            m@ == self.spec_message(),
    {
        "no ip addresses found for target"
    }
}

/// The deterministic half of target resolution: given every address the
/// name lookup returned, in whatever order it returned them, produce the
/// canonical deduplicated ascending list, or fail when there is none.
pub fn resolved_targets(addrs: &Vec<Address>) -> (r: Result<Vec<Address>, ResolveError>)
    ensures
        r is Ok <==> addrs@.len() > 0,
        r matches Ok(v) ==> strictly_sorted(v@) && (forall|a: Address|
            v@.contains(a) <==> addrs@.contains(a)),
        r is Err ==> r->Err_0 == ResolveError::NoAddresses,
{
    if addrs.len() == 0 {
        return Err(ResolveError::NoAddresses);
    }
    let v = canonical_addresses(addrs);
    proof {
        assert(addrs@.contains(addrs@[0]));
    }
    Ok(v)
}

} // verus!
