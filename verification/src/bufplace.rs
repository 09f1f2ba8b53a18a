//! Placement of global buffers onto the pads of their nets. The three
//! kinds of buffer are placed by the same rules, so the rules work on what
//! the kinds have in common: the site index a buffer asks for and the
//! macrocell that drives it.

use vstd::prelude::*;
use crate::device::pad_in_range;
use crate::netlist::mc_loc_in_range;
use crate::netlist::InputGraphMacrocell;
use crate::netlist::RequestedLocation;

verus! {

/// What placement needs to know of a global buffer.
#[derive(Clone, Copy, Debug)]
pub struct BufferRequest {
    /// The site index the buffer asks for, if any.
    pub index: Option<u32>,
    /// The macrocell that drives the buffer.
    pub input: usize,
}

/// The location request that pins a macrocell to `pad`.
pub open spec fn pinned_to(pad: (u32, u32)) -> Option<RequestedLocation> {
    Some(RequestedLocation { fb: pad.0, i: Some(pad.1) })
}

/// Whether a macrocell with location request `loc` may sit on `pad`.
pub open spec fn pad_suits(loc: Option<RequestedLocation>, pad: (u32, u32)) -> bool {
    match loc {
        Some(l) => l.fb == pad.0 && (l.i matches Some(i) ==> i == pad.1),
        None => true,
    }
}

/// Whether a macrocell with location request `loc` may sit on `pad`.
pub fn pad_suits_exec(loc: Option<RequestedLocation>, pad: (u32, u32)) -> (r: bool)
    ensures
        r == pad_suits(loc, pad),
{
    match loc {
        Some(l) => l.fb == pad.0 && (match l.i {
            Some(i) => i == pad.1,
            None => true,
        }),
        None => true,
    }
}

/// The location request `new` asks for no less than `old` did.
pub open spec fn loc_refines(old: Option<RequestedLocation>, new: Option<RequestedLocation>) -> bool {
    match old {
        Some(o) => new matches Some(n) && n.fb == o.fb && (o.i is Some ==> n.i == o.i),
        None => true,
    }
}

/// The macrocells `new` are the macrocells `old` with, at most, location
/// requests that ask for more.
pub open spec fn mcs_refine(old: Seq<InputGraphMacrocell>, new: Seq<InputGraphMacrocell>) -> bool {
    &&& new.len() == old.len()
    &&& forall|i: int|
        0 <= i < old.len() ==> {
            &&& (#[trigger] new[i]).same_logic(&old[i])
            &&& loc_refines(old[i].requested_loc, new[i].requested_loc)
            &&& (mc_loc_in_range(old[i].requested_loc) ==> mc_loc_in_range(new[i].requested_loc))
        }
}

/// Whether the requests refer to macrocells that exist and to sites that
/// exist among `count`.
pub open spec fn requests_ok(reqs: Seq<BufferRequest>, n_mcs: int, count: int) -> bool {
    forall|k: int|
        0 <= k < reqs.len() ==> (#[trigger] reqs[k]).input < n_mcs && (reqs[k].index matches Some(
            i,
        ) ==> i < count)
}

/// Whether site `i` is the first site among `pads` that lies on `target`.
pub open spec fn first_pad_on(pads: Seq<(u32, u32)>, target: (u32, u32), i: int) -> bool {
    &&& 0 <= i < pads.len()
    &&& pads[i] == target
    &&& forall|j: int| 0 <= j < i ==> pads[j] != target
}

/// Whether no site among `pads` lies on `target`.
pub open spec fn no_pad_on(pads: Seq<(u32, u32)>, target: (u32, u32)) -> bool {
    forall|j: int| 0 <= j < pads.len() ==> pads[j] != target
}

/// What a buffer asks for once the pin of its macrocell has been taken
/// into account: a buffer without a site index whose macrocell is pinned
/// to a pad takes the first site on that pad.
pub open spec fn resolved(
    before: BufferRequest,
    after: BufferRequest,
    mcs: Seq<InputGraphMacrocell>,
    pads: Seq<(u32, u32)>,
) -> bool {
    &&& after.input == before.input
    &&& match before.index {
        Some(i) => after.index == Some(i),
        None => match mcs[before.input as int].requested_loc {
            Some(RequestedLocation { fb, i: Some(m) }) => after.index matches Some(i)
                && first_pad_on(pads, (fb, m), i as int),
            _ => after.index is None,
        },
    }
}

/// Whether the buffer `req` cannot be resolved: it has no site index and
/// its macrocell is pinned where no site of the net lies.
pub open spec fn unresolvable(
    req: BufferRequest,
    mcs: Seq<InputGraphMacrocell>,
    pads: Seq<(u32, u32)>,
) -> bool {
    req.index is None && (mcs[req.input as int].requested_loc matches Some(
        RequestedLocation { fb, i: Some(m) },
    ) && no_pad_on(pads, (fb, m)))
}

/// Whether `after` are the requests `before` once the pins of the
/// macrocells have been taken into account.
pub open spec fn requests_resolved(
    before: Seq<BufferRequest>,
    after: Seq<BufferRequest>,
    mcs: Seq<InputGraphMacrocell>,
    pads: Seq<(u32, u32)>,
) -> bool {
    &&& after.len() == before.len()
    &&& forall|k: int| 0 <= k < before.len() ==> resolved(before[k], #[trigger] after[k], mcs, pads)
}

/// The pins of the macrocells resolve the requests in one way only.
pub proof fn lemma_resolved_unique(
    before: Seq<BufferRequest>,
    a: Seq<BufferRequest>,
    b: Seq<BufferRequest>,
    mcs: Seq<InputGraphMacrocell>,
    pads: Seq<(u32, u32)>,
)
    requires
        requests_resolved(before, a, mcs, pads),
        requests_resolved(before, b, mcs, pads),
    ensures
        a == b,
{
    assert forall|k: int| 0 <= k < before.len() implies a[k] == b[k] by {
        assert(resolved(before[k], a[k], mcs, pads));
        assert(resolved(before[k], b[k], mcs, pads));
    }
    assert(a =~= b);
}

/// Requests of which one cannot be resolved are not resolved by any
/// requests.
pub proof fn lemma_unresolvable(
    before: Seq<BufferRequest>,
    after: Seq<BufferRequest>,
    mcs: Seq<InputGraphMacrocell>,
    pads: Seq<(u32, u32)>,
    k: int,
)
    requires
        0 <= k < before.len(),
        unresolvable(before[k], mcs, pads),
    ensures
        !requests_resolved(before, after, mcs, pads),
{
    if requests_resolved(before, after, mcs, pads) {
        assert(resolved(before[k], after[k], mcs, pads));
    }
}

/// Gives every buffer without a site index whose macrocell is pinned the
/// first site on that pad. Returns `false`, and leaves the requests
/// unspecified, exactly if some such macrocell is pinned where no site of
/// the net lies.
pub fn resolve_buffer_indices(
    reqs: &mut Vec<BufferRequest>,
    mcs: &Vec<InputGraphMacrocell>,
    pads: &Vec<(u32, u32)>,
) -> (r: bool)
    requires
        pads@.len() <= 4,
        requests_ok(old(reqs)@, mcs@.len() as int, pads@.len() as int),
    ensures
        final(reqs)@.len() == old(reqs)@.len(),
        r ==> requests_ok(final(reqs)@, mcs@.len() as int, pads@.len() as int),
        r ==> forall|k: int|
            0 <= k < old(reqs)@.len() ==> resolved(
                old(reqs)@[k],
                #[trigger] final(reqs)@[k],
                mcs@,
                pads@,
            ),
        !r <==> exists|k: int|
            0 <= k < old(reqs)@.len() && unresolvable(#[trigger] old(reqs)@[k], mcs@, pads@),
        r <==> exists|after: Seq<BufferRequest>| #[trigger]
            requests_resolved(old(reqs)@, after, mcs@, pads@),
        r ==> requests_resolved(old(reqs)@, final(reqs)@, mcs@, pads@),
{
    let n = reqs.len();
    let mut k: usize = 0;
    while k < n
        invariant
            k <= n,
            n == reqs@.len(),
            n == old(reqs)@.len(),
            pads@.len() <= 4,
            requests_ok(old(reqs)@, mcs@.len() as int, pads@.len() as int),
            requests_ok(reqs@, mcs@.len() as int, pads@.len() as int),
            forall|j: int|
                0 <= j < k ==> resolved(old(reqs)@[j], #[trigger] reqs@[j], mcs@, pads@),
            forall|j: int| 0 <= j < k ==> !unresolvable(#[trigger] old(reqs)@[j], mcs@, pads@),
            forall|j: int| k <= j < n ==> reqs@[j] == old(reqs)@[j],
        decreases n - k,
    {
        let req = reqs[k];
        if req.index.is_none() {
            if let Some(RequestedLocation { fb, i: Some(m) }) = mcs[req.input].requested_loc {
                let mut found: Option<u32> = None;
                let mut i: usize = 0;
                while i < pads.len() && found.is_none()
                    invariant
                        i <= pads@.len(),
                        pads@.len() <= 4,
                        found is None ==> forall|j: int| 0 <= j < i ==> pads@[j] != (fb, m),
                        found matches Some(x) ==> first_pad_on(pads@, (fb, m), x as int),
                    decreases pads@.len() - i + (if found is None { 1int } else { 0int }),
                {
                    let pad = pads[i];
                    if pad.0 == fb && pad.1 == m {
                        found = Some(i as u32);
                    } else {
                        i += 1;
                    }
                }
                match found {
                    Some(x) => {
                        reqs[k] = BufferRequest { index: Some(x), input: req.input };
                    },
                    None => {
                        proof {
                            assert(unresolvable(old(reqs)@[k as int], mcs@, pads@));
                            assert forall|after: Seq<BufferRequest>| !#[trigger] requests_resolved(
                                old(reqs)@,
                                after,
                                mcs@,
                                pads@,
                            ) by {
                                lemma_unresolvable(old(reqs)@, after, mcs@, pads@, k as int);
                            }
                        }
                        return false;
                    },
                }
            }
        }
        k += 1;
    }
    assert(requests_resolved(old(reqs)@, reqs@, mcs@, pads@));
    true
}

/// Whether the sites `sites` place the buffers `reqs`: every buffer has a
/// site of the net, the one it asked for if it asked, and no two buffers
/// share a site.
pub open spec fn sites_place(reqs: Seq<BufferRequest>, sites: Seq<u32>, count: int) -> bool {
    &&& sites.len() == reqs.len()
    &&& forall|k: int| 0 <= k < sites.len() ==> (#[trigger] sites[k]) < count
    &&& forall|k: int|
        0 <= k < sites.len() ==> ((#[trigger] reqs[k]).index matches Some(i) ==> sites[k] == i)
    &&& forall|j: int, k: int| 0 <= j < k < sites.len() ==> sites[j] != sites[k]
}

/// Whether two buffers of `reqs` ask for the same site.
pub open spec fn requests_clash(reqs: Seq<BufferRequest>) -> bool {
    exists|j: int, k: int|
        0 <= j < k < reqs.len() && (#[trigger] reqs[j]).index is Some && reqs[j].index == (
        #[trigger] reqs[k]).index
}

/// The state while sites are handed out: which sites are taken, and by
/// which of the first `done` of the buffers that this pass places.
pub open spec fn handing_inv(
    reqs: Seq<BufferRequest>,
    used: Seq<bool>,
    sites: Seq<Option<u32>>,
    count: int,
) -> bool {
    &&& used.len() == count
    &&& sites.len() == reqs.len()
    &&& forall|k: int|
        0 <= k < sites.len() ==> ((#[trigger] sites[k]) matches Some(i) ==> i < count && used[i as int])
    &&& forall|j: int, k: int|
        0 <= j < k < sites.len() && sites[j] is Some ==> #[trigger] sites[j] != #[trigger] sites[k]
    &&& forall|i: int|
        0 <= i < count && #[trigger] used[i] ==> exists|k: int|
            0 <= k < sites.len() && #[trigger] sites[k] == Some(i as u32)
}

/// The location request of macrocell `m` after the first `k` buffers had
/// their turn: the last of them that asked for no site and is driven by
/// `m` pinned it to the pad of its site.
pub open spec fn loc_after(
    reqs: Seq<BufferRequest>,
    sites: Seq<u32>,
    mcs: Seq<InputGraphMacrocell>,
    pads: Seq<(u32, u32)>,
    m: int,
    k: int,
) -> Option<RequestedLocation>
    decreases k,
{
    if k <= 0 {
        mcs[m].requested_loc
    } else if reqs[k - 1].index is None && reqs[k - 1].input == m {
        pinned_to(pads[sites[k - 1] as int])
    } else {
        loc_after(reqs, sites, mcs, pads, m, k - 1)
    }
}

/// Whether a buffer asks for site `i`.
pub open spec fn site_asked(reqs: Seq<BufferRequest>, i: int) -> bool {
    exists|j: int| 0 <= j < reqs.len() && (#[trigger] reqs[j]).index == Some(i as u32)
}

/// Whether one of the first `k` buffers asked for no site and was given
/// site `i`.
pub open spec fn site_given(reqs: Seq<BufferRequest>, sites: Seq<u32>, k: int, i: int) -> bool {
    exists|j: int| 0 <= j < k && (#[trigger] reqs[j]).index is None && sites[j] == i
}

/// Whether buffer `k`, which asks for no site, may take site `i` when
/// its turn comes: no buffer asks for the site, none before `k` was given
/// it, and its pad suits what the macrocell of the buffer then asks for.
pub open spec fn site_open(
    reqs: Seq<BufferRequest>,
    sites: Seq<u32>,
    mcs: Seq<InputGraphMacrocell>,
    pads: Seq<(u32, u32)>,
    k: int,
    i: int,
) -> bool {
    &&& !site_asked(reqs, i)
    &&& !site_given(reqs, sites, k, i)
    &&& pad_suits(loc_after(reqs, sites, mcs, pads, reqs[k].input as int, k), pads[i])
}

/// Whether buffer `k` has the site that is its due: the one it asks for,
/// or else the first that it may take when its turn comes.
pub open spec fn handed_at(
    reqs: Seq<BufferRequest>,
    sites: Seq<u32>,
    mcs: Seq<InputGraphMacrocell>,
    pads: Seq<(u32, u32)>,
    k: int,
) -> bool {
    match reqs[k].index {
        Some(i) => sites[k] == i,
        None => {
            &&& sites[k] < pads.len()
            &&& site_open(reqs, sites, mcs, pads, k, sites[k] as int)
            &&& forall|i: int| 0 <= i < sites[k] ==> !#[trigger] site_open(reqs, sites, mcs, pads, k, i)
        },
    }
}

/// Whether `sites` are the sites that the buffers `reqs` are handed: no
/// two buffers ask for the same site, and every buffer has its due.
pub open spec fn sites_handed(
    reqs: Seq<BufferRequest>,
    sites: Seq<u32>,
    mcs: Seq<InputGraphMacrocell>,
    pads: Seq<(u32, u32)>,
) -> bool {
    &&& sites.len() == reqs.len()
    &&& !requests_clash(reqs)
    &&& forall|k: int| 0 <= k < reqs.len() ==> #[trigger] handed_at(reqs, sites, mcs, pads, k)
}

/// Whether the buffers `reqs` can be handed sites.
pub open spec fn can_hand(
    reqs: Seq<BufferRequest>,
    mcs: Seq<InputGraphMacrocell>,
    pads: Seq<(u32, u32)>,
) -> bool {
    exists|sites: Seq<u32>| #[trigger] sites_handed(reqs, sites, mcs, pads)
}

/// What a macrocell asks for after some buffers had their turn depends
/// only on the sites of those buffers.
proof fn lemma_loc_after_same(
    reqs: Seq<BufferRequest>,
    a: Seq<u32>,
    b: Seq<u32>,
    mcs: Seq<InputGraphMacrocell>,
    pads: Seq<(u32, u32)>,
    m: int,
    k: int,
)
    requires
        forall|j: int| 0 <= j < k ==> a[j] == b[j],
    ensures
        loc_after(reqs, a, mcs, pads, m, k) == loc_after(reqs, b, mcs, pads, m, k),
    decreases k,
{
    if k > 0 {
        lemma_loc_after_same(reqs, a, b, mcs, pads, m, k - 1);
    }
}

/// Whether a buffer may take a site depends only on the sites of the
/// buffers before it.
proof fn lemma_site_open_same(
    reqs: Seq<BufferRequest>,
    a: Seq<u32>,
    b: Seq<u32>,
    mcs: Seq<InputGraphMacrocell>,
    pads: Seq<(u32, u32)>,
    k: int,
    i: int,
)
    requires
        forall|j: int| 0 <= j < k ==> a[j] == b[j],
    ensures
        site_open(reqs, a, mcs, pads, k, i) == site_open(reqs, b, mcs, pads, k, i),
{
    lemma_loc_after_same(reqs, a, b, mcs, pads, reqs[k].input as int, k);
    if site_given(reqs, a, k, i) {
        let j = choose|j: int| 0 <= j < k && (#[trigger] reqs[j]).index is None && a[j] == i;
        assert(reqs[j].index is None && b[j] == i);
    }
    if site_given(reqs, b, k, i) {
        let j = choose|j: int| 0 <= j < k && (#[trigger] reqs[j]).index is None && b[j] == i;
        assert(reqs[j].index is None && a[j] == i);
    }
}

/// Whether a buffer has its due depends only on its site and the sites
/// of the buffers before it.
proof fn lemma_handed_same(
    reqs: Seq<BufferRequest>,
    a: Seq<u32>,
    b: Seq<u32>,
    mcs: Seq<InputGraphMacrocell>,
    pads: Seq<(u32, u32)>,
    k: int,
)
    requires
        0 <= k < reqs.len(),
        k < a.len(),
        k < b.len(),
        forall|j: int| 0 <= j <= k ==> a[j] == b[j],
    ensures
        handed_at(reqs, a, mcs, pads, k) == handed_at(reqs, b, mcs, pads, k),
{
    assert(a[k] == b[k]);
    if reqs[k].index is None {
        assert forall|i: int|
            #![trigger site_open(reqs, a, mcs, pads, k, i)]
            #![trigger site_open(reqs, b, mcs, pads, k, i)]
            site_open(reqs, a, mcs, pads, k, i) == site_open(reqs, b, mcs, pads, k, i) by {
            lemma_site_open_same(reqs, a, b, mcs, pads, k, i);
        }
    }
}

/// Two ways to hand the first `k` buffers their due are the same.
pub proof fn lemma_handed_agree(
    reqs: Seq<BufferRequest>,
    a: Seq<u32>,
    b: Seq<u32>,
    mcs: Seq<InputGraphMacrocell>,
    pads: Seq<(u32, u32)>,
    k: int,
)
    requires
        forall|j: int| 0 <= j < k ==> #[trigger] handed_at(reqs, a, mcs, pads, j),
        forall|j: int| 0 <= j < k ==> #[trigger] handed_at(reqs, b, mcs, pads, j),
    ensures
        forall|j: int| 0 <= j < k ==> a[j] == b[j],
    decreases k,
{
    if k > 0 {
        lemma_handed_agree(reqs, a, b, mcs, pads, k - 1);
        assert(handed_at(reqs, a, mcs, pads, k - 1));
        assert(handed_at(reqs, b, mcs, pads, k - 1));
        if reqs[k - 1].index is None {
            lemma_site_open_same(reqs, a, b, mcs, pads, k - 1, a[k - 1] as int);
            lemma_site_open_same(reqs, a, b, mcs, pads, k - 1, b[k - 1] as int);
        }
    }
}

/// The buffers are handed sites in one way only.
pub proof fn lemma_handed_unique(
    reqs: Seq<BufferRequest>,
    a: Seq<u32>,
    b: Seq<u32>,
    mcs: Seq<InputGraphMacrocell>,
    pads: Seq<(u32, u32)>,
)
    requires
        sites_handed(reqs, a, mcs, pads),
        sites_handed(reqs, b, mcs, pads),
    ensures
        a == b,
{
    lemma_handed_agree(reqs, a, b, mcs, pads, reqs.len() as int);
    assert(a =~= b);
}

/// Whether `out` are the macrocells `mcs` after the buffers `reqs` were
/// handed the sites `sites`: each macrocell that drives a buffer that
/// asked for no site is pinned to the pad of the site of that buffer.
pub open spec fn mcs_pinned(
    reqs: Seq<BufferRequest>,
    sites: Seq<u32>,
    mcs: Seq<InputGraphMacrocell>,
    pads: Seq<(u32, u32)>,
    out: Seq<InputGraphMacrocell>,
) -> bool {
    &&& out.len() == mcs.len()
    &&& forall|m: int|
        0 <= m < mcs.len() ==> (#[trigger] out[m]).same_logic(&mcs[m]) && out[m].requested_loc
            == loc_after(reqs, sites, mcs, pads, m, reqs.len() as int)
}

/// The macrocells are pinned in one way only.
pub proof fn lemma_pinned_unique(
    reqs: Seq<BufferRequest>,
    sites: Seq<u32>,
    mcs: Seq<InputGraphMacrocell>,
    pads: Seq<(u32, u32)>,
    a: Seq<InputGraphMacrocell>,
    b: Seq<InputGraphMacrocell>,
)
    requires
        mcs_pinned(reqs, sites, mcs, pads, a),
        mcs_pinned(reqs, sites, mcs, pads, b),
    ensures
        a == b,
{
    assert forall|m: int| 0 <= m < mcs.len() implies a[m] == b[m] by {
        assert(a[m].same_logic(&mcs[m]));
        assert(b[m].same_logic(&mcs[m]));
    }
    assert(a =~= b);
}

/// The sites behind a list of sites that is still being filled: a buffer
/// without a site stands as site 0.
pub open spec fn sites_so_far(sites: Seq<Option<u32>>) -> Seq<u32> {
    Seq::new(
        sites.len(),
        |j: int|
            match sites[j] {
                Some(x) => x,
                None => 0u32,
            },
    )
}

/// Places the buffers of one net. A buffer that asks for a site gets it;
/// then every other buffer, in order, gets the first free site whose pad
/// suits the location request of its macrocell, and that macrocell is
/// pinned to the pad. Returns `None` if two buffers ask for the same site
/// or a buffer finds no site.
pub fn assign_buffer_sites(
    reqs: &Vec<BufferRequest>,
    mcs: &mut Vec<InputGraphMacrocell>,
    pads: &Vec<(u32, u32)>,
) -> (r: Option<Vec<u32>>)
    requires
        pads@.len() <= 4,
        forall|i: int| 0 <= i < pads@.len() ==> pad_in_range(#[trigger] pads@[i]),
        requests_ok(reqs@, old(mcs)@.len() as int, pads@.len() as int),
    ensures
        mcs_refine(old(mcs)@, final(mcs)@),
        requests_clash(reqs@) ==> r is None,
        reqs@.len() == 0 ==> r is Some && final(mcs)@ == old(mcs)@,
        r matches Some(sites) ==> {
            &&& sites_place(reqs@, sites@, pads@.len() as int)
            &&& forall|k: int|
                0 <= k < reqs@.len() && (#[trigger] reqs@[k]).index is None
                    ==> final(mcs)@[reqs@[k].input as int].requested_loc == pinned_to(
                    pads@[sites@[k] as int],
                )
        },
        r is Some <==> can_hand(reqs@, old(mcs)@, pads@),
        r matches Some(sites) ==> {
            &&& sites_handed(reqs@, sites@, old(mcs)@, pads@)
            &&& mcs_pinned(reqs@, sites@, old(mcs)@, pads@, final(mcs)@)
        },
{
    let n = reqs.len();
    let count = pads.len();
    let mut used: Vec<bool> = Vec::new();
    let mut c: usize = 0;
    while c < count
        invariant
            c <= count,
            used@.len() == c,
            forall|i: int| 0 <= i < c ==> !used@[i],
        decreases count - c,
    {
        used.push(false);
        c += 1;
    }
    let mut sites: Vec<Option<u32>> = Vec::new();
    let mut k: usize = 0;
    while k < n
        invariant
            k <= n,
            sites@.len() == k,
            forall|j: int| 0 <= j < k ==> (#[trigger] sites@[j]) is None,
        decreases n - k,
    {
        sites.push(None);
        k += 1;
    }

    // Buffers that ask for a site.
    let mut k: usize = 0;
    while k < n
        invariant
            k <= n,
            n == reqs@.len(),
            count == pads@.len(),
            requests_ok(reqs@, mcs@.len() as int, pads@.len() as int),
            mcs@ == old(mcs)@,
            handing_inv(reqs@, used@, sites@, count as int),
            forall|j: int| 0 <= j < k ==> (#[trigger] sites@[j]) == reqs@[j].index,
            forall|j: int| k <= j < n ==> (#[trigger] sites@[j]) is None,
        decreases n - k,
    {
        if let Some(idx) = reqs[k].index {
            if used[idx as usize] {
                proof {
                    let j = choose|j: int| 0 <= j < sites@.len() && #[trigger] sites@[j] == Some(idx);
                    assert(reqs@[j].index == reqs@[k as int].index);
                    assert(requests_clash(reqs@));
                }
                assert(mcs_refine(old(mcs)@, mcs@));
                return None;
            }
            let ghost used0 = used@;
            let ghost sites0 = sites@;
            used[idx as usize] = true;
            sites[k] = Some(idx);
            proof {
                assert forall|i: int| 0 <= i < count && #[trigger] used@[i] implies exists|k2: int|
                    0 <= k2 < sites@.len() && #[trigger] sites@[k2] == Some(i as u32) by {
                    if i == idx {
                        assert(sites@[k as int] == Some(i as u32));
                    } else {
                        assert(used0[i]);
                        let k2 = choose|k2: int|
                            0 <= k2 < sites0.len() && #[trigger] sites0[k2] == Some(i as u32);
                        assert(sites@[k2] == Some(i as u32));
                    }
                }
                assert forall|a: int, b: int|
                    0 <= a < b < sites@.len() && sites@[a] is Some implies #[trigger] sites@[a]
                    != #[trigger] sites@[b] by {
                    if a == k {
                        if sites@[b] is Some {
                            assert(sites0[b] is Some);
                            assert(used0[sites0[b].unwrap() as int]);
                        }
                    } else if b == k {
                        assert(sites0[a] is Some);
                        assert(used0[sites0[a].unwrap() as int]);
                    }
                }
            }
        }
        k += 1;
    }
    proof {
        if requests_clash(reqs@) {
            let (j, k2) = choose|j: int, k2: int|
                0 <= j < k2 < reqs@.len() && (#[trigger] reqs@[j]).index is Some && reqs@[j].index
                    == (#[trigger] reqs@[k2]).index;
            assert(sites@[j] == sites@[k2]);
            assert(false);
        }
        assert forall|i: int| 0 <= i < count implies (#[trigger] used@[i] <==> site_asked(reqs@, i)
            || site_given(reqs@, sites_so_far(sites@), 0, i)) by {
            if used@[i] {
                let j = choose|j: int| 0 <= j < sites@.len() && #[trigger] sites@[j] == Some(i as u32);
                assert(reqs@[j].index == Some(i as u32));
            }
            if site_asked(reqs@, i) {
                let j = choose|j: int|
                    0 <= j < reqs@.len() && (#[trigger] reqs@[j]).index == Some(i as u32);
                assert(sites@[j] == Some(i as u32));
            }
        }
    }

    // The others take the first free site whose pad suits their macrocell.
    let mut k: usize = 0;
    while k < n
        invariant
            k <= n,
            n == reqs@.len(),
            count == pads@.len(),
            count <= 4,
            forall|i: int| 0 <= i < pads@.len() ==> pad_in_range(#[trigger] pads@[i]),
            requests_ok(reqs@, mcs@.len() as int, pads@.len() as int),
            mcs_refine(old(mcs)@, mcs@),
            n == 0 ==> mcs@ == old(mcs)@,
            handing_inv(reqs@, used@, sites@, count as int),
            forall|j: int|
                0 <= j < n && (#[trigger] reqs@[j]).index is Some ==> sites@[j] == reqs@[j].index,
            forall|j: int| 0 <= j < k ==> (#[trigger] sites@[j]) is Some,
            forall|j: int| k <= j < n && (#[trigger] reqs@[j]).index is None ==> sites@[j] is None,
            forall|j: int|
                0 <= j < k && (#[trigger] reqs@[j]).index is None
                    ==> mcs@[reqs@[j].input as int].requested_loc == pinned_to(
                    pads@[sites@[j].unwrap() as int],
                ),
            !requests_clash(reqs@),
            mcs@.len() == old(mcs)@.len(),
            forall|m: int|
                0 <= m < mcs@.len() ==> (#[trigger] mcs@[m]).requested_loc == loc_after(
                    reqs@,
                    sites_so_far(sites@),
                    old(mcs)@,
                    pads@,
                    m,
                    k as int,
                ),
            forall|j: int|
                0 <= j < k ==> #[trigger] handed_at(
                    reqs@,
                    sites_so_far(sites@),
                    old(mcs)@,
                    pads@,
                    j,
                ),
            forall|i: int|
                0 <= i < count ==> (#[trigger] used@[i] <==> site_asked(reqs@, i) || site_given(
                    reqs@,
                    sites_so_far(sites@),
                    k as int,
                    i,
                )),
        decreases n - k,
    {
        let ghost before = sites_so_far(sites@);
        if sites[k].is_none() {
            let input = reqs[k].input;
            let mut idx: Option<u32> = None;
            let mut i: usize = 0;
            while i < count && idx.is_none()
                invariant
                    i <= count,
                    count == pads@.len(),
                    count <= 4,
                    used@.len() == count,
                    input < mcs@.len(),
                    idx matches Some(x) ==> x < count && !used@[x as int] && pad_suits(
                        mcs@[input as int].requested_loc,
                        pads@[x as int],
                    ),
                    idx matches Some(x) ==> forall|c: int|
                        0 <= c < x ==> used@[c] || !pad_suits(
                            mcs@[input as int].requested_loc,
                            #[trigger] pads@[c],
                        ),
                    idx is None ==> forall|c: int|
                        0 <= c < i ==> used@[c] || !pad_suits(
                            mcs@[input as int].requested_loc,
                            #[trigger] pads@[c],
                        ),
                decreases count - i,
            {
                if !used[i] && pad_suits_exec(mcs[input].requested_loc, pads[i]) {
                    idx = Some(i as u32);
                }
                i += 1;
            }
            match idx {
                Some(x) => {
                    let pad = pads[x as usize];
                    let ghost used0 = used@;
                    let ghost sites0 = sites@;
                    let ghost mcs0 = mcs@;
                    mcs[input].requested_loc = Some(RequestedLocation { fb: pad.0, i: Some(pad.1) });
                    used[x as usize] = true;
                    sites[k] = Some(x);
                    proof {
                        assert(pad_in_range(pads@[x as int]));
                        assert forall|i: int| 0 <= i < old(mcs)@.len() implies {
                            &&& (#[trigger] mcs@[i]).same_logic(&old(mcs)@[i])
                            &&& loc_refines(old(mcs)@[i].requested_loc, mcs@[i].requested_loc)
                            &&& (mc_loc_in_range(old(mcs)@[i].requested_loc) ==> mc_loc_in_range(
                                mcs@[i].requested_loc,
                            ))
                        } by {
                            assert(mcs0[i].same_logic(&old(mcs)@[i]));
                        }
                        assert forall|i: int| 0 <= i < count && #[trigger] used@[i] implies exists|
                            k2: int,
                        |
                            0 <= k2 < sites@.len() && #[trigger] sites@[k2] == Some(i as u32) by {
                            if i == x {
                                assert(sites@[k as int] == Some(i as u32));
                            } else {
                                assert(used0[i]);
                                let k2 = choose|k2: int|
                                    0 <= k2 < sites0.len() && #[trigger] sites0[k2] == Some(
                                        i as u32,
                                    );
                                assert(sites@[k2] == Some(i as u32));
                            }
                        }
                        assert forall|a: int, b: int|
                            0 <= a < b < sites@.len() && sites@[a] is Some implies #[trigger] sites@[a]
                            != #[trigger] sites@[b] by {
                            if a == k {
                                if sites@[b] is Some {
                                    assert(sites0[b] is Some);
                                    assert(used0[sites0[b].unwrap() as int]);
                                }
                            } else if b == k {
                                assert(sites0[a] is Some);
                                assert(used0[sites0[a].unwrap() as int]);
                            }
                        }
                        assert forall|j: int|
                            0 <= j < k + 1 && (#[trigger] reqs@[j]).index is None implies mcs@[reqs@[j].input as int].requested_loc
                            == pinned_to(pads@[sites@[j].unwrap() as int]) by {
                            if j < k {
                                assert(sites@[j] == sites0[j]);
                                if reqs@[j].input == input {
                                    // the macrocell was pinned already, and the pad suits it
                                    assert(mcs0[input as int].requested_loc == pinned_to(
                                        pads@[sites0[j].unwrap() as int],
                                    ));
                                }
                            }
                        }
                        let after = sites_so_far(sites@);
                        assert(reqs@[k as int].index is None);
                        assert(after[k as int] == x);
                        assert forall|j: int| 0 <= j < k implies before[j] == after[j] by {
                            assert(sites@[j] == sites0[j]);
                        }
                        assert forall|m: int| 0 <= m < mcs@.len() implies (#[trigger] mcs@[m]).requested_loc
                            == loc_after(reqs@, after, old(mcs)@, pads@, m, k + 1) by {
                            if m != input {
                                assert(mcs@[m] == mcs0[m]);
                                lemma_loc_after_same(reqs@, before, after, old(mcs)@, pads@, m, k as int);
                            }
                        }
                        assert forall|j: int| 0 <= j < k implies #[trigger] handed_at(
                            reqs@,
                            after,
                            old(mcs)@,
                            pads@,
                            j,
                        ) by {
                            assert(handed_at(reqs@, before, old(mcs)@, pads@, j));
                            lemma_handed_same(reqs@, before, after, old(mcs)@, pads@, j);
                        }
                        assert forall|c: int| 0 <= c < count implies (#[trigger] site_open(
                            reqs@,
                            after,
                            old(mcs)@,
                            pads@,
                            k as int,
                            c,
                        ) <==> !used0[c] && pad_suits(mcs0[input as int].requested_loc, pads@[c])) by {
                            lemma_site_open_same(reqs@, before, after, old(mcs)@, pads@, k as int, c);
                        }
                        assert(handed_at(reqs@, after, old(mcs)@, pads@, k as int));
                        assert forall|i: int| 0 <= i < count implies (#[trigger] used@[i]
                            <==> site_asked(reqs@, i) || site_given(reqs@, after, k + 1, i)) by {
                            if site_given(reqs@, before, k as int, i) {
                                let j = choose|j: int|
                                    0 <= j < k && (#[trigger] reqs@[j]).index is None && before[j] == i;
                                assert(reqs@[j].index is None && after[j] == i);
                            }
                            if site_given(reqs@, after, k + 1, i) {
                                let j = choose|j: int|
                                    0 <= j < k + 1 && (#[trigger] reqs@[j]).index is None && after[j]
                                        == i;
                                if j < k {
                                    assert(reqs@[j].index is None && before[j] == i);
                                }
                            }
                            if i == x {
                                assert(reqs@[k as int].index is None && after[k as int] == i);
                            }
                        }
                    }
                },
                None => {
                    proof {
                        assert(reqs@[k as int].index is None);
                        assert forall|t: Seq<u32>| !#[trigger] sites_handed(
                            reqs@,
                            t,
                            old(mcs)@,
                            pads@,
                        ) by {
                            if sites_handed(reqs@, t, old(mcs)@, pads@) {
                                assert forall|j: int| 0 <= j < k implies #[trigger] handed_at(
                                    reqs@,
                                    t,
                                    old(mcs)@,
                                    pads@,
                                    j,
                                ) by {}
                                lemma_handed_agree(reqs@, t, before, old(mcs)@, pads@, k as int);
                                assert(handed_at(reqs@, t, old(mcs)@, pads@, k as int));
                                let c = t[k as int] as int;
                                lemma_site_open_same(reqs@, t, before, old(mcs)@, pads@, k as int, c);
                                assert(used@[c] || !pad_suits(
                                    mcs@[input as int].requested_loc,
                                    pads@[c],
                                ));
                            }
                        }
                    }
                    return None;
                },
            }
        } else {
            proof {
                assert(reqs@[k as int].index is Some);
                assert forall|m: int| 0 <= m < mcs@.len() implies (#[trigger] mcs@[m]).requested_loc
                    == loc_after(reqs@, before, old(mcs)@, pads@, m, k + 1) by {}
                assert forall|i: int| 0 <= i < count implies (#[trigger] used@[i] <==> site_asked(
                    reqs@,
                    i,
                ) || site_given(reqs@, before, k + 1, i)) by {
                    if site_given(reqs@, before, k + 1, i) {
                        let j = choose|j: int|
                            0 <= j < k + 1 && (#[trigger] reqs@[j]).index is None && before[j] == i;
                        assert(j < k);
                    }
                    if site_given(reqs@, before, k as int, i) {
                        let j = choose|j: int|
                            0 <= j < k && (#[trigger] reqs@[j]).index is None && before[j] == i;
                        assert(reqs@[j].index is None && before[j] == i);
                    }
                }
            }
        }
        k += 1;
    }

    let mut out: Vec<u32> = Vec::new();
    let mut k: usize = 0;
    while k < n
        invariant
            k <= n,
            n == sites@.len(),
            out@.len() == k,
            forall|j: int| 0 <= j < n ==> (#[trigger] sites@[j]) is Some,
            forall|j: int| 0 <= j < k ==> Some(#[trigger] out@[j]) == sites@[j],
        decreases n - k,
    {
        match sites[k] {
            Some(x) => {
                out.push(x);
            },
            None => {},
        }
        k += 1;
    }
    proof {
        assert forall|a: int, b: int| 0 <= a < b < out@.len() implies out@[a] != out@[b] by {
            assert(sites@[a] != sites@[b]);
        }
        assert forall|j: int| 0 <= j < out@.len() implies (#[trigger] out@[j]) < count by {
            assert(sites@[j] is Some);
        }
        assert(out@ =~= sites_so_far(sites@)) by {
            assert forall|j: int| 0 <= j < n implies out@[j] == sites_so_far(sites@)[j] by {
                assert(Some(out@[j]) == sites@[j]);
            }
        }
        assert(sites_handed(reqs@, out@, old(mcs)@, pads@));
        assert(mcs_pinned(reqs@, out@, old(mcs)@, pads@, mcs@));
    }
    Some(out)
}

} // verus!
