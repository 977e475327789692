use vstd::prelude::*;

use crate::gens::{
    lemma_extract_ignores_track, lemma_extract_then_bind, lemma_set_id_twice, spec_extract, with_track, GenId, GeneratorManager,
};
use crate::Error;

verus! {

/// How a receiver maps a network value from the unit interval into its range.
#[derive(Debug, Clone, Copy, PartialEq, Eq, Structural)]
pub enum Transform {
    Linear,
}

/// How a receiver draws its value from generators: one generator, a weighted
/// average or a weighted product of networks, or one minus a network. Weights
/// are held as the bit patterns of 32-bit floats.
#[derive(Debug)]
pub enum Network {
    Leaf(GenId),
    WeightedAverage(Vec<(u32, Network)>),
    WeightedProduct(Vec<(u32, Network)>),
    Inverted(Box<Network>),
}

/// A network as plain values.
pub enum NetModel {
    Leaf(GenId),
    Average(Seq<(u32, NetModel)>),
    Product(Seq<(u32, NetModel)>),
    Inverted(Box<NetModel>),
}

impl Network {
    /// The network as plain values.
    pub open spec fn model(&self) -> NetModel
        decreases self,
    {
        match self {
            Network::Leaf(id) => NetModel::Leaf(*id),
            Network::WeightedAverage(v) => NetModel::Average(
                Seq::new(
                    v@.len(),
                    |i: int|
                        if 0 <= i < v@.len() {
                            (v@[i].0, v@[i].1.model())
                        } else {
                            (0u32, NetModel::Leaf(GenId::Unbound))
                        },
                ),
            ),
            Network::WeightedProduct(v) => NetModel::Product(
                Seq::new(
                    v@.len(),
                    |i: int|
                        if 0 <= i < v@.len() {
                            (v@[i].0, v@[i].1.model())
                        } else {
                            (0u32, NetModel::Leaf(GenId::Unbound))
                        },
                ),
            ),
            Network::Inverted(n) => NetModel::Inverted(Box::new(n.model())),
        }
    }
}

/// The networks of a list, as plain values.
pub open spec fn list_model(v: Seq<(u32, Network)>) -> Seq<(u32, NetModel)> {
    Seq::new(v.len(), |i: int| (v[i].0, v[i].1.model()))
}

/// The network with its tracks taken out, for an instrument description: a
/// generator whose identifier cannot be extracted drops out, an average or
/// product keeps the entries that survive (and drops out when none does), and an
/// inverted network gives what its inner network gives.
pub open spec fn net_extract(m: NetModel) -> Option<NetModel>
    decreases m, 0int,
{
    match m {
        NetModel::Leaf(id) => match spec_extract(id) {
            Ok(new_id) => Some(NetModel::Leaf(new_id)),
            Err(_) => None,
        },
        NetModel::Average(s) => {
            let k = extract_entries(s, s.len() as int);
            if k.len() > 0 {
                Some(NetModel::Average(k))
            } else {
                None
            }
        },
        NetModel::Product(s) => {
            let k = extract_entries(s, s.len() as int);
            if k.len() > 0 {
                Some(NetModel::Product(k))
            } else {
                None
            }
        },
        NetModel::Inverted(b) => net_extract(*b),
    }
}

/// The first `n` entries whose network survives extraction, each extracted, in
/// order.
pub open spec fn extract_entries(s: Seq<(u32, NetModel)>, n: int) -> Seq<(u32, NetModel)>
    decreases s, n,
{
    if n <= 0 || n > s.len() {
        Seq::empty()
    } else {
        let rest = extract_entries(s, n - 1);
        match net_extract(s[n - 1].1) {
            Some(e) => rest.push((s[n - 1].0, e)),
            None => rest,
        }
    }
}

/// The entries of a list whose network can be extracted, each extracted.
fn extract_list(vec: &Vec<(u32, Network)>) -> (res: Vec<(u32, Network)>)
    ensures
        list_model(res@) == extract_entries(list_model(vec@), vec@.len() as int),
    decreases vec@, 0nat,
{
    let ghost all = list_model(vec@);
    let mut out: Vec<(u32, Network)> = Vec::new();
    let mut i: usize = 0;
    while i < vec.len()
        invariant
            0 <= i <= vec@.len(),
            all == list_model(vec@),
            list_model(out@) == extract_entries(all, i as int),
        decreases vec@.len() - i,
    {
        assert(decreases_to!(vec@ => vec@[i as int].1));
        let r = vec[i].1.extract();
        match r {
            Some(n) => {
                let ghost before = out@;
                out.push((vec[i].0, n));
                assert(list_model(out@) =~= list_model(before).push((vec@[i as int].0, n.model())));
            },
            None => {},
        }
        i = i + 1;
    }
    out
}

impl Network {
    /// The network with its tracks taken out, as `net_extract` says.
    pub fn extract(&self) -> (res: Option<Network>)
        ensures
            match net_extract(self.model()) {
                Some(m) => res matches Some(n) && n.model() == m,
                None => res is None,
            },
        decreases self, 1nat,
    {
        match self {
            Network::Leaf(id) => match id.extract() {
                Ok(new_id) => Some(Network::Leaf(new_id)),
                Err(_) => None,
            },
            Network::WeightedAverage(vec) => {
                let new_vec = extract_list(vec);
                proof {
                    assert(self.model()->Average_0 =~= list_model(vec@));
                }
                if new_vec.len() > 0 {
                    let res = Network::WeightedAverage(new_vec);
                    assert(res.model()->Average_0 =~= list_model(new_vec@));
                    Some(res)
                } else {
                    None
                }
            },
            Network::WeightedProduct(vec) => {
                let new_vec = extract_list(vec);
                proof {
                    assert(self.model()->Product_0 =~= list_model(vec@));
                }
                if new_vec.len() > 0 {
                    let res = Network::WeightedProduct(new_vec);
                    assert(res.model()->Product_0 =~= list_model(new_vec@));
                    Some(res)
                } else {
                    None
                }
            },
            Network::Inverted(net) => net.extract(),
        }
    }
}

/// The network with every generator bound to the track `track_id`.
pub open spec fn net_with_track(m: NetModel, track_id: u8) -> NetModel
    decreases m, 0int,
{
    match m {
        NetModel::Leaf(id) => NetModel::Leaf(with_track(id, track_id)),
        NetModel::Average(s) => NetModel::Average(bind_entries(s, s.len() as int, track_id)),
        NetModel::Product(s) => NetModel::Product(bind_entries(s, s.len() as int, track_id)),
        NetModel::Inverted(b) => NetModel::Inverted(Box::new(net_with_track(*b, track_id))),
    }
}

/// The first `n` entries, each bound to the track `track_id`.
pub open spec fn bind_entries(s: Seq<(u32, NetModel)>, n: int, track_id: u8) -> Seq<(u32, NetModel)>
    decreases s, n,
{
    if n <= 0 || n > s.len() {
        Seq::empty()
    } else {
        bind_entries(s, n - 1, track_id).push((s[n - 1].0, net_with_track(s[n - 1].1, track_id)))
    }
}

/// The entries of a list, each bound to the track `track_id`.
fn bind_list(vec: Vec<(u32, Network)>, track_id: u8) -> (res: Vec<(u32, Network)>)
    ensures
        list_model(res@) == bind_entries(list_model(vec@), vec@.len() as int, track_id),
    decreases vec@, 0nat,
{
    let ghost orig = vec@;
    let ghost all = list_model(vec@);
    let n = vec.len();
    let mut rest = vec;
    let mut out: Vec<(u32, Network)> = Vec::new();
    let mut i: usize = 0;
    while i < n
        invariant
            0 <= i <= n,
            n == orig.len(),
            orig == vec@,
            rest@ == orig.skip(i as int),
            all == list_model(orig),
            list_model(out@) == bind_entries(all, i as int, track_id),
        decreases n - i,
    {
        let (w, net) = rest.remove(0);
        assert(net == orig[i as int].1);
        assert(decreases_to!(orig => orig[i as int].1));
        let bound = net.bound_to(track_id);
        let ghost before = out@;
        out.push((w, bound));
        assert(list_model(out@) =~= list_model(before).push((orig[i as int].0, bound.model())));
        i = i + 1;
    }
    out
}

impl Network {
    /// The network with every generator bound to the track `track_id`.
    fn bound_to(self, track_id: u8) -> (res: Network)
        ensures
            res.model() == net_with_track(self.model(), track_id),
        decreases self, 1nat,
    {
        match self {
            Network::Leaf(id) => {
                let mut id = id;
                id.set_id(track_id);
                Network::Leaf(id)
            },
            Network::WeightedAverage(vec) => {
                proof {
                    assert(self.model()->Average_0 =~= list_model(vec@));
                }
                let res = Network::WeightedAverage(bind_list(vec, track_id));
                assert(res.model()->Average_0 =~= list_model(res->WeightedAverage_0@));
                res
            },
            Network::WeightedProduct(vec) => {
                proof {
                    assert(self.model()->Product_0 =~= list_model(vec@));
                }
                let res = Network::WeightedProduct(bind_list(vec, track_id));
                assert(res.model()->Product_0 =~= list_model(res->WeightedProduct_0@));
                res
            },
            Network::Inverted(net) => Network::Inverted(Box::new((*net).bound_to(track_id))),
        }
    }

    /// Binds every generator of the network to the track `track_id`.
    pub fn set_id(&mut self, track_id: u8)
        ensures
            final(self).model() == net_with_track(old(self).model(), track_id),
    {
        let mut taken = Network::Leaf(GenId::Unbound);
        std::mem::swap(&mut taken, self);
        *self = taken.bound_to(track_id);
    }
}

/// Taking the first `k` extracted entries looks only at the first `k` entries.
proof fn lemma_extract_entries_prefix(x: Seq<(u32, NetModel)>, e: (u32, NetModel), k: int)
    requires
        0 <= k <= x.len(),
    ensures
        extract_entries(x.push(e), k) == extract_entries(x, k),
    decreases k,
{
    if k > 0 {
        lemma_extract_entries_prefix(x, e, k - 1);
        assert(x.push(e)[k - 1] == x[k - 1]);
    }
}

/// Binding entries to a track and then extracting them gives what extracting
/// them does.
proof fn lemma_bind_entries_extract(s: Seq<(u32, NetModel)>, n: int, track_id: u8)
    requires
        0 <= n <= s.len(),
    ensures
        bind_entries(s, n, track_id).len() == n,
        extract_entries(bind_entries(s, n, track_id), n) == extract_entries(s, n),
    decreases s, n,
{
    if n > 0 {
        lemma_bind_entries_extract(s, n - 1, track_id);
        let b = bind_entries(s, n - 1, track_id);
        let e = (s[n - 1].0, net_with_track(s[n - 1].1, track_id));
        lemma_extract_entries_prefix(b, e, n - 1);
        assert(decreases_to!(s => s[n - 1].1));
        lemma_extract_ignores_binding(s[n - 1].1, track_id);
    }
}

/// Taking the tracks out of a network ignores which track it was bound to.
pub proof fn lemma_extract_ignores_binding(m: NetModel, track_id: u8)
    ensures
        net_extract(net_with_track(m, track_id)) == net_extract(m),
    decreases m, 0int,
{
    match m {
        NetModel::Leaf(id) => {
            lemma_extract_ignores_track(id, track_id);
        },
        NetModel::Average(s) => {
            lemma_bind_entries_extract(s, s.len() as int, track_id);
        },
        NetModel::Product(s) => {
            lemma_bind_entries_extract(s, s.len() as int, track_id);
        },
        NetModel::Inverted(b) => {
            lemma_extract_ignores_binding(*b, track_id);
        },
    }
}

/// A generator that can tell which generators it reads itself.
pub trait SubIds: Sized {
    /// The identifiers of the generators this one reads, in the order it gives
    /// them; a type that keeps the law of `get_sub_ids` says what they are.
    open spec fn sub_ids(&self) -> Seq<GenId> {
        Seq::empty()
    }

    /// The type keeps the law of `get_sub_ids`: it gives `sub_ids`. What is proved
    /// through that law holds of the types that show it; a type shows it by
    /// giving both spec functions, and none does until it says so.
    open spec fn obeys_sub_ids() -> bool {
        false
    }

    /// The identifiers of the generators this one reads.
    fn get_sub_ids(&self) -> (r: Vec<GenId>)
        ensures
            Self::obeys_sub_ids() ==> r@ == self.sub_ids(),
    ;
}

/// The generators a network reads directly, in order.
pub open spec fn net_leaves(m: NetModel) -> Seq<GenId>
    decreases m, 0int,
{
    match m {
        NetModel::Leaf(id) => seq![id],
        NetModel::Average(s) => entry_leaves(s, s.len() as int),
        NetModel::Product(s) => entry_leaves(s, s.len() as int),
        NetModel::Inverted(b) => net_leaves(*b),
    }
}

/// The generators the first `n` entries read directly, in order.
pub open spec fn entry_leaves(s: Seq<(u32, NetModel)>, n: int) -> Seq<GenId>
    decreases s, n,
{
    if n <= 0 || n > s.len() {
        Seq::empty()
    } else {
        entry_leaves(s, n - 1) + net_leaves(s[n - 1].1)
    }
}

/// Every generator in `leaves` is in `manager`.
pub open spec fn all_found<G>(manager: GeneratorManager<G>, leaves: Seq<GenId>) -> bool {
    forall|i: int| 0 <= i < leaves.len() ==> #[trigger] manager.lookup(leaves[i]) is Ok
}

/// `e` is why the first generator of `leaves` that is not in `manager` is missing.
pub open spec fn first_missing<G>(manager: GeneratorManager<G>, leaves: Seq<GenId>, e: Error) -> bool {
    exists|i: int|
        0 <= i < leaves.len() && manager.lookup(leaves[i]) == Err::<G, Error>(e) && forall|j: int|
            0 <= j < i ==> #[trigger] manager.lookup(leaves[j]) is Ok
}

/// Blocks of identifiers joined in order.
pub open spec fn flat(bs: Seq<Seq<GenId>>) -> Seq<GenId>
    decreases bs.len(),
{
    if bs.len() == 0 {
        Seq::empty()
    } else {
        flat(bs.drop_last()) + bs.last()
    }
}

/// The identifiers the generator under `leaf` reads, then `leaf` itself.
pub open spec fn leaf_block<G: SubIds>(manager: GeneratorManager<G>, leaf: GenId) -> Seq<GenId> {
    match manager.lookup(leaf) {
        Ok(g) => g.sub_ids().push(leaf),
        Err(_) => seq![leaf],
    }
}

/// `bs` holds one block for each of `leaves`, in order, each ending in its
/// leaf; where the generators keep the law of `get_sub_ids`, each block is the
/// leaf's block: what its generator reads, then the leaf.
pub open spec fn blocks_for<G: SubIds>(manager: GeneratorManager<G>, leaves: Seq<GenId>, bs: Seq<Seq<GenId>>) -> bool {
    &&& bs.len() == leaves.len()
    &&& forall|i: int| 0 <= i < bs.len() ==> (#[trigger] bs[i]).len() > 0 && bs[i].last() == leaves[i]
    &&& G::obeys_sub_ids() ==> forall|i: int| 0 <= i < bs.len() ==> #[trigger] bs[i] == leaf_block(manager, leaves[i])
}

/// The block of each of `leaves`, in order.
pub open spec fn leaf_blocks<G: SubIds>(manager: GeneratorManager<G>, leaves: Seq<GenId>) -> Seq<Seq<GenId>> {
    leaves.map_values(|leaf: GenId| leaf_block(manager, leaf))
}

/// What looking up the generators of `leaves` in turn in `manager` answers:
/// when every one is found, the blocks of `blocks_for` joined in order (where
/// the generators keep the law of `get_sub_ids`, exactly the leaves' blocks
/// joined in order); else the first missing one is named with its error.
pub open spec fn ids_answer<G: SubIds>(manager: GeneratorManager<G>, leaves: Seq<GenId>, res: Result<Vec<GenId>, Error>) -> bool {
    &&& res is Ok <==> all_found(manager, leaves)
    &&& res matches Err(e) ==> first_missing(manager, leaves, e)
    &&& res matches Ok(ids) ==> exists|bs: Seq<Seq<GenId>>| blocks_for(manager, leaves, bs) && ids@ == flat(bs)
    &&& G::obeys_sub_ids() ==> (res matches Ok(ids) ==> ids@ == flat(leaf_blocks(manager, leaves)))
}

/// Under the law of `get_sub_ids`, the blocks for `leaves` are the leaves' blocks.
proof fn lemma_blocks_exact<G: SubIds>(manager: GeneratorManager<G>, leaves: Seq<GenId>, bs: Seq<Seq<GenId>>)
    requires
        blocks_for(manager, leaves, bs),
        G::obeys_sub_ids(),
    ensures
        bs == leaf_blocks(manager, leaves),
{
    assert(bs =~= leaf_blocks(manager, leaves));
}

/// Joining two runs of blocks joins what they hold.
proof fn lemma_flat_append(a: Seq<Seq<GenId>>, b: Seq<Seq<GenId>>)
    ensures
        flat(a + b) == flat(a) + flat(b),
    decreases b.len(),
{
    if b.len() == 0 {
        assert(a + b =~= a);
        assert(flat(a) + flat(b) =~= flat(a));
    } else {
        lemma_flat_append(a, b.drop_last());
        assert((a + b).drop_last() =~= a + b.drop_last());
        assert((a + b).last() == b.last());
        assert(flat(a) + flat(b.drop_last()) + b.last() =~= flat(a) + (flat(b.drop_last()) + b.last()));
    }
}

/// Every identifier of every block is among the blocks joined.
proof fn lemma_flat_contains(bs: Seq<Seq<GenId>>, i: int, j: int)
    requires
        0 <= i < bs.len(),
        0 <= j < bs[i].len(),
    ensures
        flat(bs).contains(bs[i][j]),
    decreases bs.len(),
{
    let head = flat(bs.drop_last());
    assert(flat(bs) == head + bs.last());
    if i == bs.len() - 1 {
        assert(flat(bs)[head.len() + j] == bs[i][j]);
    } else {
        assert(bs.drop_last()[i] == bs[i]);
        lemma_flat_contains(bs.drop_last(), i, j);
        let k = choose|k: int| 0 <= k < head.len() && head[k] == bs[i][j];
        assert(flat(bs)[k] == bs[i][j]);
    }
}

/// The identifiers a network gives, when it gives them, hold every generator it
/// reads directly; where the generators keep the law of `get_sub_ids`, they also
/// hold every generator those read.
pub proof fn lemma_ids_hold_leaves<G: SubIds>(manager: GeneratorManager<G>, leaves: Seq<GenId>, res: Result<Vec<GenId>, Error>)
    requires
        ids_answer(manager, leaves, res),
        res is Ok,
    ensures
        forall|i: int| 0 <= i < leaves.len() ==> res->Ok_0@.contains(#[trigger] leaves[i]),
        G::obeys_sub_ids() ==> forall|i: int, j: int|
            0 <= i < leaves.len() && 0 <= j < leaf_block(manager, leaves[i]).len() ==> res->Ok_0@.contains(
                #[trigger] leaf_block(manager, leaves[i])[j],
            ),
{
    let ids = res->Ok_0;
    let bs = choose|bs: Seq<Seq<GenId>>| blocks_for(manager, leaves, bs) && ids@ == flat(bs);
    assert forall|i: int| 0 <= i < leaves.len() implies ids@.contains(#[trigger] leaves[i]) by {
        assert(bs[i].len() > 0);
        lemma_flat_contains(bs, i, bs[i].len() - 1);
    }
    if G::obeys_sub_ids() {
        assert forall|i: int, j: int|
            0 <= i < leaves.len() && 0 <= j < leaf_block(manager, leaves[i]).len() implies ids@.contains(
            #[trigger] leaf_block(manager, leaves[i])[j],
        ) by {
            assert(bs[i] == leaf_block(manager, leaves[i]));
            lemma_flat_contains(bs, i, j);
        }
    }
}

/// The blocks for two runs of generators, joined, are the blocks for both.
proof fn lemma_blocks_append<G: SubIds>(
    manager: GeneratorManager<G>,
    a: Seq<GenId>,
    b: Seq<GenId>,
    ba: Seq<Seq<GenId>>,
    bb: Seq<Seq<GenId>>,
)
    requires
        blocks_for(manager, a, ba),
        blocks_for(manager, b, bb),
    ensures
        blocks_for(manager, a + b, ba + bb),
{
    assert forall|i: int| 0 <= i < (ba + bb).len() implies (#[trigger] (ba + bb)[i]).len() > 0 && (ba
        + bb)[i].last() == (a + b)[i] by {
        if i < ba.len() {
            assert((ba + bb)[i] == ba[i]);
            assert((a + b)[i] == a[i]);
        } else {
            assert((ba + bb)[i] == bb[i - ba.len()]);
            assert((a + b)[i] == b[i - a.len()]);
        }
    }
    if G::obeys_sub_ids() {
        assert forall|i: int| 0 <= i < (ba + bb).len() implies #[trigger] (ba + bb)[i] == leaf_block(
            manager,
            (a + b)[i],
        ) by {
            if i < ba.len() {
                assert((ba + bb)[i] == ba[i]);
                assert((a + b)[i] == a[i]);
            } else {
                assert((ba + bb)[i] == bb[i - ba.len()]);
                assert((a + b)[i] == b[i - a.len()]);
            }
        }
    }
}

/// A missing generator in the first run is the first missing one of both runs;
/// after a run that is all found, the first missing one of the second is.
proof fn lemma_first_missing_append<G>(manager: GeneratorManager<G>, a: Seq<GenId>, b: Seq<GenId>, e: Error)
    ensures
        first_missing(manager, a, e) ==> first_missing(manager, a + b, e),
        all_found(manager, a) && first_missing(manager, b, e) ==> first_missing(manager, a + b, e),
        all_found(manager, a) && !all_found(manager, b) ==> !all_found(manager, a + b),
        !all_found(manager, a) ==> !all_found(manager, a + b),
{
    if first_missing(manager, a, e) {
        let i = choose|i: int|
            0 <= i < a.len() && manager.lookup(a[i]) == Err::<G, Error>(e) && forall|j: int|
                0 <= j < i ==> #[trigger] manager.lookup(a[j]) is Ok;
        assert((a + b)[i] == a[i]);
        assert forall|j: int| 0 <= j < i implies #[trigger] manager.lookup((a + b)[j]) is Ok by {
            assert((a + b)[j] == a[j]);
        }
    }
    if all_found(manager, a) && first_missing(manager, b, e) {
        let i = choose|i: int|
            0 <= i < b.len() && manager.lookup(b[i]) == Err::<G, Error>(e) && forall|j: int|
                0 <= j < i ==> #[trigger] manager.lookup(b[j]) is Ok;
        assert((a + b)[a.len() + i] == b[i]);
        assert forall|j: int| 0 <= j < a.len() + i implies #[trigger] manager.lookup((a + b)[j]) is Ok by {
            if j < a.len() {
                assert((a + b)[j] == a[j]);
            } else {
                assert((a + b)[j] == b[j - a.len()]);
            }
        }
    }
    if all_found(manager, a) && !all_found(manager, b) {
        let i = choose|i: int| 0 <= i < b.len() && !(manager.lookup(b[i]) is Ok);
        assert((a + b)[a.len() + i] == b[i]);
    }
    if !all_found(manager, a) {
        let i = choose|i: int| 0 <= i < a.len() && !(manager.lookup(a[i]) is Ok);
        assert((a + b)[i] == a[i]);
    }
}

/// A missing generator among the first `m` entries stays the first missing one
/// among the first `n`.
proof fn lemma_entry_leaves_missing<G>(manager: GeneratorManager<G>, s: Seq<(u32, NetModel)>, m: int, n: int, e: Error)
    requires
        0 <= m <= n <= s.len(),
    ensures
        first_missing(manager, entry_leaves(s, m), e) ==> first_missing(manager, entry_leaves(s, n), e),
        !all_found(manager, entry_leaves(s, m)) ==> !all_found(manager, entry_leaves(s, n)),
    decreases n - m,
{
    if m < n {
        lemma_entry_leaves_missing(manager, s, m, n - 1, e);
        lemma_first_missing_append(manager, entry_leaves(s, n - 1), net_leaves(s[n - 1].1), e);
    }
}

/// The generators the entries of a list read, each with the generators those
/// read, as `Network::get_ids` gives them.
fn ids_of_list<G: SubIds>(vec: &Vec<(u32, Network)>, manager: &GeneratorManager<G>) -> (res: Result<Vec<GenId>, Error>)
    ensures
        ids_answer(*manager, entry_leaves(list_model(vec@), vec@.len() as int), res),
    decreases vec@, 0nat,
{
    let ghost all = list_model(vec@);
    let mut out: Vec<GenId> = Vec::new();
    let ghost mut blocks: Seq<Seq<GenId>> = Seq::empty();
    let mut i: usize = 0;
    while i < vec.len()
        invariant
            0 <= i <= vec@.len(),
            all == list_model(vec@),
            all_found(*manager, entry_leaves(all, i as int)),
            blocks_for(*manager, entry_leaves(all, i as int), blocks),
            out@ == flat(blocks),
        decreases vec@.len() - i,
    {
        assert(decreases_to!(vec@ => vec@[i as int].1));
        let r = vec[i].1.get_ids(manager);
        let ghost before = entry_leaves(all, i as int);
        let ghost here = net_leaves(all[i as int].1);
        assert(entry_leaves(all, i + 1) == before + here);
        match r {
            Ok(ids) => {
                let ghost bs = choose|bs: Seq<Seq<GenId>>| blocks_for(*manager, here, bs) && ids@ == flat(bs);
                let ghost old_out = out@;
                let mut ids = ids;
                out.append(&mut ids);
                proof {
                    lemma_first_missing_append(*manager, before, here, Error::Existence);
                    lemma_blocks_append(*manager, before, here, blocks, bs);
                    lemma_flat_append(blocks, bs);
                    blocks = blocks + bs;
                }
            },
            Err(e) => {
                proof {
                    lemma_first_missing_append(*manager, before, here, e);
                    lemma_entry_leaves_missing(*manager, all, i + 1, vec@.len() as int, e);
                }
                return Err(e);
            },
        }
        i = i + 1;
    }
    proof {
        if G::obeys_sub_ids() {
            lemma_blocks_exact(*manager, entry_leaves(all, vec@.len() as int), blocks);
        }
    }
    Ok(out)
}

impl Network {
    /// The generators the network reads, each after the generators it reads
    /// itself, as `ids_answer` says; the first generator that `manager` does
    /// not hold gives its error.
    pub fn get_ids<G: SubIds>(&self, manager: &GeneratorManager<G>) -> (res: Result<Vec<GenId>, Error>)
        ensures
            ids_answer(*manager, net_leaves(self.model()), res),
        decreases self, 1nat,
    {
        match self {
            Network::Leaf(id) => {
                let gen = match manager.get(*id) {
                    Ok(gen) => gen,
                    Err(e) => {
                        proof {
                            assert(net_leaves(self.model()) == seq![*id]);
                            assert(net_leaves(self.model())[0] == *id);
                        }
                        return Err(e);
                    },
                };
                let mut out = gen.get_sub_ids();
                let ghost subs = out@;
                out.push(*id);
                proof {
                    let leaves = net_leaves(self.model());
                    assert(leaves == seq![*id]);
                    let bs = seq![out@];
                    assert(bs.len() == 1 && bs.last() == out@);
                    assert(bs.drop_last() =~= Seq::<Seq<GenId>>::empty());
                    assert(flat(bs.drop_last()) == Seq::<GenId>::empty());
                    assert(flat(bs) =~= out@);
                    assert(out@ == subs.push(*id));
                    assert(out@.last() == *id);
                    if G::obeys_sub_ids() {
                        assert(manager.lookup(*id) == Ok::<G, Error>(*gen));
                        assert(bs[0] == leaf_block(*manager, leaves[0]));
                    }
                    assert(blocks_for(*manager, leaves, bs));
                    assert(all_found(*manager, leaves));
                    if G::obeys_sub_ids() {
                        lemma_blocks_exact(*manager, leaves, bs);
                    }
                }
                Ok(out)
            },
            Network::WeightedAverage(vec) => {
                proof {
                    assert(self.model()->Average_0 =~= list_model(vec@));
                }
                ids_of_list(vec, manager)
            },
            Network::WeightedProduct(vec) => {
                proof {
                    assert(self.model()->Product_0 =~= list_model(vec@));
                }
                ids_of_list(vec, manager)
            },
            Network::Inverted(net) => net.get_ids(manager),
        }
    }
}

impl Network {
    /// Whether the network may feed the generator `parent`: a network that reads
    /// `parent`, directly or through the generators it reads, would make a loop
    /// and gives `Error::Loop`; a generator the manager does not hold gives its
    /// error, as `get_ids` does.
    pub fn check_parent<G: SubIds>(&self, parent: GenId, manager: &GeneratorManager<G>) -> (res: Result<(), Error>)
        ensures
            res is Ok ==> all_found(*manager, net_leaves(self.model())) && forall|i: int|
                0 <= i < net_leaves(self.model()).len() ==> #[trigger] net_leaves(self.model())[i] != parent,
            res is Ok ==> !reads_leaf(self.model(), parent),
            !all_found(*manager, net_leaves(self.model())) ==> (res matches Err(e) && first_missing(
                *manager,
                net_leaves(self.model()),
                e,
            )),
            all_found(*manager, net_leaves(self.model())) ==> (res is Ok || res == Err::<(), Error>(Error::Loop)),
            G::obeys_sub_ids() && all_found(*manager, net_leaves(self.model())) ==> (res is Ok <==> !flat(
                leaf_blocks(*manager, net_leaves(self.model())),
            ).contains(parent)),
    {
        match self.get_ids(manager) {
            Ok(ids) => {
                proof {
                    lemma_ids_hold_leaves(*manager, net_leaves(self.model()), Ok::<Vec<GenId>, Error>(ids));
                }
                let mut i: usize = 0;
                while i < ids.len()
                    invariant
                        0 <= i <= ids@.len(),
                        forall|j: int| 0 <= j < i ==> ids@[j] != parent,
                        all_found(*manager, net_leaves(self.model())),
                        forall|k: int| 0 <= k < net_leaves(self.model()).len() ==> ids@.contains(
                            #[trigger] net_leaves(self.model())[k],
                        ),
                        G::obeys_sub_ids() ==> ids@ == flat(leaf_blocks(*manager, net_leaves(self.model()))),
                    decreases ids@.len() - i,
                {
                    if ids[i] == parent {
                        proof {
                            assert(ids@.contains(parent));
                        }
                        return Err(Error::Loop);
                    }
                    i = i + 1;
                }
                proof {
                    assert(!ids@.contains(parent));
                    lemma_leaves_are_read(self.model(), parent);
                    if net_leaves(self.model()).contains(parent) {
                        let k = choose|k: int| 0 <= k < net_leaves(self.model()).len() && net_leaves(self.model())[k] == parent;
                        assert(ids@.contains(net_leaves(self.model())[k]));
                    }
                }
                Ok(())
            },
            Err(e) => Err(e),
        }
    }
}

/// Binding entries twice is binding them to the second track.
proof fn lemma_bind_entries_twice(s: Seq<(u32, NetModel)>, n: int, first: u8, second: u8)
    requires
        0 <= n <= s.len(),
    ensures
        bind_entries(bind_entries(s, n, first), n, second) == bind_entries(s, n, second),
    decreases s, n,
{
    if n > 0 {
        lemma_bind_entries_twice(s, n - 1, first, second);
        let b = bind_entries(s, n - 1, first);
        let e = (s[n - 1].0, net_with_track(s[n - 1].1, first));
        lemma_bind_entries_len(s, n - 1, first);
        lemma_bind_entries_prefix(b, e, n - 1, second);
        assert(decreases_to!(s => s[n - 1].1));
        lemma_bind_twice(s[n - 1].1, first, second);
    }
}

/// Binding the first `k` entries looks only at the first `k` entries.
proof fn lemma_bind_entries_prefix(x: Seq<(u32, NetModel)>, e: (u32, NetModel), k: int, track_id: u8)
    requires
        0 <= k <= x.len(),
    ensures
        bind_entries(x.push(e), k, track_id) == bind_entries(x, k, track_id),
    decreases k,
{
    if k > 0 {
        lemma_bind_entries_prefix(x, e, k - 1, track_id);
        assert(x.push(e)[k - 1] == x[k - 1]);
    }
}

/// Binding the first `n` entries gives `n` entries.
proof fn lemma_bind_entries_len(s: Seq<(u32, NetModel)>, n: int, track_id: u8)
    requires
        0 <= n <= s.len(),
    ensures
        bind_entries(s, n, track_id).len() == n,
    decreases n,
{
    if n > 0 {
        lemma_bind_entries_len(s, n - 1, track_id);
    }
}

/// Binding a network to a track twice is binding it to the second track.
pub proof fn lemma_bind_twice(m: NetModel, first: u8, second: u8)
    ensures
        net_with_track(net_with_track(m, first), second) == net_with_track(m, second),
    decreases m, 0int,
{
    match m {
        NetModel::Leaf(id) => {
            lemma_set_id_twice(id, first, second);
        },
        NetModel::Average(s) => {
            lemma_bind_entries_len(s, s.len() as int, first);
            lemma_bind_entries_twice(s, s.len() as int, first, second);
        },
        NetModel::Product(s) => {
            lemma_bind_entries_len(s, s.len() as int, first);
            lemma_bind_entries_twice(s, s.len() as int, first, second);
        },
        NetModel::Inverted(b) => {
            lemma_bind_twice(*b, first, second);
        },
    }
}

/// Every entry that extraction keeps is itself left as it is by extraction.
proof fn lemma_extracted_entries_fixed(s: Seq<(u32, NetModel)>, n: int)
    requires
        0 <= n <= s.len(),
    ensures
        forall|i: int|
            0 <= i < extract_entries(s, n).len() ==> net_extract(#[trigger] extract_entries(s, n)[i].1)
                == Some(extract_entries(s, n)[i].1),
    decreases s, n,
{
    if n > 0 {
        lemma_extracted_entries_fixed(s, n - 1);
        assert(decreases_to!(s => s[n - 1].1));
        lemma_extract_idempotent(s[n - 1].1);
    }
}

/// Extracting entries that extraction leaves as they are gives them back.
proof fn lemma_extract_fixed_entries(k: Seq<(u32, NetModel)>, n: int)
    requires
        0 <= n <= k.len(),
        forall|i: int| 0 <= i < k.len() ==> net_extract(#[trigger] k[i].1) == Some(k[i].1),
    ensures
        extract_entries(k, n) == k.take(n),
    decreases n,
{
    if n > 0 {
        lemma_extract_fixed_entries(k, n - 1);
        assert(k.take(n) == k.take(n - 1).push(k[n - 1]));
    }
}

/// Extracting an extracted network gives it back.
pub proof fn lemma_extract_idempotent(m: NetModel)
    ensures
        net_extract(m) matches Some(e) ==> net_extract(e) == Some(e),
    decreases m, 0int,
{
    match m {
        NetModel::Leaf(id) => {
            if spec_extract(id) is Ok {
                lemma_extract_then_bind(id, 0);
            }
        },
        NetModel::Average(s) => {
            let k = extract_entries(s, s.len() as int);
            lemma_extracted_entries_fixed(s, s.len() as int);
            lemma_extract_fixed_entries(k, k.len() as int);
            assert(k.take(k.len() as int) == k);
        },
        NetModel::Product(s) => {
            let k = extract_entries(s, s.len() as int);
            lemma_extracted_entries_fixed(s, s.len() as int);
            lemma_extract_fixed_entries(k, k.len() as int);
            assert(k.take(k.len() as int) == k);
        },
        NetModel::Inverted(b) => {
            lemma_extract_idempotent(*b);
        },
    }
}


/// `a` and `b` are networks of the same shape: the same kind of node at every
/// place, with the same weights, whatever generators sit at the leaves.
pub open spec fn same_shape(a: NetModel, b: NetModel) -> bool
    decreases a, 0int,
{
    match a {
        NetModel::Leaf(_) => b is Leaf,
        NetModel::Average(s) => match b {
            NetModel::Average(t) => s.len() == t.len() && entries_alike(s, t, s.len() as int),
            _ => false,
        },
        NetModel::Product(s) => match b {
            NetModel::Product(t) => s.len() == t.len() && entries_alike(s, t, s.len() as int),
            _ => false,
        },
        NetModel::Inverted(x) => match b {
            NetModel::Inverted(y) => same_shape(*x, *y),
            _ => false,
        },
    }
}

/// The first `n` entries of `s` and `t` have the same weights and networks of the
/// same shape.
pub open spec fn entries_alike(s: Seq<(u32, NetModel)>, t: Seq<(u32, NetModel)>, n: int) -> bool
    decreases s, n,
{
    if n <= 0 || n > s.len() {
        true
    } else {
        entries_alike(s, t, n - 1) && s[n - 1].0 == t[n - 1].0 && same_shape(s[n - 1].1, t[n - 1].1)
    }
}

/// The entries bound to a track, one by one.
proof fn lemma_bind_entries_index(s: Seq<(u32, NetModel)>, n: int, track_id: u8)
    requires
        0 <= n <= s.len(),
    ensures
        bind_entries(s, n, track_id).len() == n,
        forall|i: int| 0 <= i < n ==> #[trigger] bind_entries(s, n, track_id)[i] == (s[i].0, net_with_track(s[i].1, track_id)),
    decreases n,
{
    if n > 0 {
        lemma_bind_entries_index(s, n - 1, track_id);
    }
}

/// Binding to a track changes only the generators at the leaves: the bound
/// network has the shape of the network it was made from, so an inverted network
/// stays inverted and an average or product keeps its kind and weights.
pub proof fn lemma_bind_keeps_shape(m: NetModel, track_id: u8)
    ensures
        same_shape(m, net_with_track(m, track_id)),
    decreases m, 0int,
{
    match m {
        NetModel::Leaf(_) => {},
        NetModel::Average(s) => {
            lemma_bind_entries_index(s, s.len() as int, track_id);
            lemma_bind_entries_shape(s, s.len() as int, track_id);
        },
        NetModel::Product(s) => {
            lemma_bind_entries_index(s, s.len() as int, track_id);
            lemma_bind_entries_shape(s, s.len() as int, track_id);
        },
        NetModel::Inverted(b) => {
            lemma_bind_keeps_shape(*b, track_id);
        },
    }
}

/// The first `n` entries keep their shape when the whole list is bound.
proof fn lemma_bind_entries_shape(s: Seq<(u32, NetModel)>, n: int, track_id: u8)
    requires
        0 <= n <= s.len(),
    ensures
        entries_alike(s, bind_entries(s, s.len() as int, track_id), n),
    decreases s, n,
{
    if n > 0 {
        lemma_bind_entries_shape(s, n - 1, track_id);
        lemma_bind_entries_index(s, s.len() as int, track_id);
        assert(bind_entries(s, s.len() as int, track_id)[n - 1] == (s[n - 1].0, net_with_track(s[n - 1].1, track_id)));
        lemma_bind_keeps_shape(s[n - 1].1, track_id);
    }
}

/// Extraction keeps the kind of what it keeps: a generator stays a generator, an
/// average an average and a product a product.
pub proof fn lemma_extract_keeps_kind(m: NetModel)
    ensures
        net_extract(m) matches Some(e) ==> {
            &&& m is Leaf ==> e is Leaf
            &&& m is Average ==> e is Average
            &&& m is Product ==> e is Product
        },
{
}

/// Each entry that extraction keeps is an entry of the list, with its weight,
/// whose network is extracted; the kept entries come in the list's order.
pub proof fn lemma_extract_entries_from(s: Seq<(u32, NetModel)>, n: int)
    requires
        0 <= n <= s.len(),
    ensures
        extract_entries(s, n).len() <= n,
        forall|j: int| 0 <= j < extract_entries(s, n).len() ==> exists|i: int|
            0 <= i < n && (#[trigger] extract_entries(s, n)[j]).0 == s[i].0 && net_extract(s[i].1) == Some(
                extract_entries(s, n)[j].1,
            ),
        forall|j1: int, j2: int| 0 <= j1 < j2 < extract_entries(s, n).len() ==> exists|i1: int, i2: int|
            0 <= i1 < i2 < n && net_extract(s[i1].1) == Some(#[trigger] extract_entries(s, n)[j1].1)
                && net_extract(s[i2].1) == Some(#[trigger] extract_entries(s, n)[j2].1),
    decreases n,
{
    if n > 0 {
        lemma_extract_entries_from(s, n - 1);
        let rest = extract_entries(s, n - 1);
        let k = extract_entries(s, n);
        match net_extract(s[n - 1].1) {
            Some(e) => {
                assert(k == rest.push((s[n - 1].0, e)));
                assert forall|j: int| 0 <= j < k.len() implies exists|i: int|
                    0 <= i < n && (#[trigger] k[j]).0 == s[i].0 && net_extract(s[i].1) == Some(k[j].1) by {
                    if j < rest.len() {
                        assert(k[j] == rest[j]);
                    } else {
                        assert(k[j] == (s[n - 1].0, e));
                    }
                }
                assert forall|j1: int, j2: int| 0 <= j1 < j2 < k.len() implies exists|i1: int, i2: int|
                    0 <= i1 < i2 < n && net_extract(s[i1].1) == Some(#[trigger] k[j1].1) && net_extract(
                        s[i2].1,
                    ) == Some(#[trigger] k[j2].1) by {
                    assert(k[j1] == rest[j1]);
                    if j2 < rest.len() {
                        assert(k[j2] == rest[j2]);
                        assert(rest[j1] == extract_entries(s, n - 1)[j1]);
                        assert(rest[j2] == extract_entries(s, n - 1)[j2]);
                    } else {
                        assert(k[j2] == (s[n - 1].0, e));
                        assert(rest[j1] == extract_entries(s, n - 1)[j1]);
                        let i1 = choose|i: int|
                            0 <= i < n - 1 && (#[trigger] rest[j1]).0 == s[i].0 && net_extract(s[i].1) == Some(rest[j1].1);
                        assert(net_extract(s[i1].1) == Some(k[j1].1));
                        assert(net_extract(s[n - 1].1) == Some(k[j2].1));
                    }
                }
            },
            None => {
                assert(k == rest);
            },
        }
    }
}

/// `id` sits at a leaf of the network, at any depth.
pub open spec fn reads_leaf(m: NetModel, id: GenId) -> bool
    decreases m, 0int,
{
    match m {
        NetModel::Leaf(x) => x == id,
        NetModel::Average(s) => entries_read(s, s.len() as int, id),
        NetModel::Product(s) => entries_read(s, s.len() as int, id),
        NetModel::Inverted(b) => reads_leaf(*b, id),
    }
}

/// `id` sits at a leaf of one of the first `n` entries.
pub open spec fn entries_read(s: Seq<(u32, NetModel)>, n: int, id: GenId) -> bool
    decreases s, n,
{
    if n <= 0 || n > s.len() {
        false
    } else {
        entries_read(s, n - 1, id) || reads_leaf(s[n - 1].1, id)
    }
}

/// A joined sequence holds what either part holds.
proof fn lemma_concat_contains(a: Seq<GenId>, b: Seq<GenId>, x: GenId)
    ensures
        (a + b).contains(x) <==> a.contains(x) || b.contains(x),
{
    if a.contains(x) {
        let i = choose|i: int| 0 <= i < a.len() && a[i] == x;
        assert((a + b)[i] == x);
    }
    if b.contains(x) {
        let i = choose|i: int| 0 <= i < b.len() && b[i] == x;
        assert((a + b)[a.len() + i] == x);
    }
    if (a + b).contains(x) {
        let i = choose|i: int| 0 <= i < (a + b).len() && (a + b)[i] == x;
        if i < a.len() {
            assert(a[i] == x);
        } else {
            assert(b[i - a.len()] == x);
        }
    }
}

/// The generators a network reads directly are exactly those at its leaves, at
/// any depth.
pub proof fn lemma_leaves_are_read(m: NetModel, id: GenId)
    ensures
        net_leaves(m).contains(id) <==> reads_leaf(m, id),
    decreases m, 0int,
{
    match m {
        NetModel::Leaf(x) => {
            assert(net_leaves(m) == seq![x]);
            if x == id {
                assert(net_leaves(m)[0] == id);
            }
        },
        NetModel::Average(s) => {
            lemma_entry_leaves_read(s, s.len() as int, id);
        },
        NetModel::Product(s) => {
            lemma_entry_leaves_read(s, s.len() as int, id);
        },
        NetModel::Inverted(b) => {
            lemma_leaves_are_read(*b, id);
        },
    }
}

/// The generators the first `n` entries read directly are those at their leaves.
proof fn lemma_entry_leaves_read(s: Seq<(u32, NetModel)>, n: int, id: GenId)
    ensures
        entry_leaves(s, n).contains(id) <==> entries_read(s, n, id),
    decreases s, n,
{
    if n > 0 && n <= s.len() {
        lemma_entry_leaves_read(s, n - 1, id);
        lemma_leaves_are_read(s[n - 1].1, id);
        lemma_concat_contains(entry_leaves(s, n - 1), net_leaves(s[n - 1].1), id);
    }
}

/// The identifiers a network gives, when it gives them, hold every generator at
/// any of its leaves, however deep.
pub proof fn lemma_ids_hold_every_leaf<G: SubIds>(manager: GeneratorManager<G>, m: NetModel, res: Result<Vec<GenId>, Error>, id: GenId)
    requires
        ids_answer(manager, net_leaves(m), res),
        res is Ok,
        reads_leaf(m, id),
    ensures
        res->Ok_0@.contains(id),
{
    lemma_leaves_are_read(m, id);
    let leaves = net_leaves(m);
    let i = choose|i: int| 0 <= i < leaves.len() && leaves[i] == id;
    lemma_ids_hold_leaves(manager, leaves, res);
    assert(res->Ok_0@.contains(leaves[i]));
}

} // verus!
