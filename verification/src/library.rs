//! Caches of loaded parts and the resolution of the parts that a document
//! refers to, directly or through other parts.

use std::sync::Arc;

use vstd::prelude::*;

use crate::alias::PartAlias;
use crate::alias_map::{inserted, marked_entries, AliasMap};
use crate::document::{
    command_keys, document_keys, gather, lemma_command_keys_contains, lemma_concat_contains,
    lemma_gather_contains, multipart_keys, Command, Document, MultipartDocument,
};
use crate::error::ResolutionError;

verus! {

/// Whether a library file is a primitive or a part.
#[derive(Debug, Clone, Copy, PartialEq, Eq, Hash, Structural)]
pub enum PartKind {
    Primitive,
    Part,
}

/// Where a loaded document came from.
#[derive(Debug, Clone, Copy, PartialEq, Eq, Hash, Structural)]
pub enum FileLocation {
    Library(PartKind),
    Local,
}

/// Which entries a cache collection looks at.
#[derive(Debug, Clone, Copy, PartialEq, Eq, Structural)]
pub enum CacheCollectionStrategy {
    Parts,
    Primitives,
    PartsAndPrimitives,
}

/// Hands out another reference to a shared document.
///
/// Calls `Arc::clone`, which makes a new pointer to the same allocation; the
/// contract says that it points to the same document.
#[verifier::external_body]
pub(crate) fn share(document: &Arc<MultipartDocument>) -> (r: Arc<MultipartDocument>)
    ensures
        r == *document,
{
    Arc::clone(document)
}

/// The number of strong references to a shared document.
///
/// Calls `Arc::strong_count`. The count depends on which other owners exist
/// at the moment of the call; the contract states only that the reference
/// handed in is one of them.
#[verifier::external_body]
pub(crate) fn strong_count(document: &Arc<MultipartDocument>) -> (r: usize)
    ensures
        r >= 1,
{
    Arc::strong_count(document)
}

/// The number of weak references to a shared document.
///
/// Calls `Arc::weak_count`. The count depends on which other owners exist at
/// the moment of the call, so the contract states nothing of it.
#[verifier::external_body]
pub(crate) fn weak_count(document: &Arc<MultipartDocument>) -> (r: usize) {
    Arc::weak_count(document)
}

/// A shared document whose reference counts are `counts` (strong, then
/// weak) is still in use elsewhere when something besides the cache holds a
/// strong reference to it (more than the cache's own), or any weak one.
pub open spec fn in_use(counts: (usize, usize)) -> bool {
    counts.0 > 1 || counts.1 > 0
}

/// For each pair of reference counts, whether its document is in use.
pub open spec fn in_use_marks(counts: Seq<(usize, usize)>) -> Seq<bool> {
    counts.map_values(|c: (usize, usize)| in_use(c))
}

/// `after` holds, in order, the entries of `before` whose documents were in
/// use by some reference counts read for them.
pub open spec fn kept_in_use(
    before: AliasMap<Arc<MultipartDocument>>,
    after: AliasMap<Arc<MultipartDocument>>,
) -> bool {
    exists|counts: Seq<(usize, usize)>|
        counts.len() == before.seq().len() && after.seq() == #[trigger] marked_entries(
            before.seq(),
            in_use_marks(counts),
        )
}

/// Keeps, in order, the entries of `map` whose documents `counts` shows in
/// use (the counts of the entry at the same position, strong then weak) and
/// drops the others. Returns how many it dropped.
pub fn retain_in_use(map: &mut AliasMap<Arc<MultipartDocument>>, counts: &Vec<(usize, usize)>) -> (r: usize)
    requires
        counts@.len() == old(map).seq().len(),
    ensures
        final(map).seq() == marked_entries(old(map).seq(), in_use_marks(counts@)),
        shrunk(*old(map), *final(map)),
        r == old(map).seq().len() - final(map).seq().len(),
{
    let n = counts.len();
    let mut keep: Vec<bool> = Vec::new();
    let mut i: usize = 0;
    while i < n
        invariant
            n == counts@.len(),
            i <= n,
            keep@ == in_use_marks(counts@).take(i as int),
        decreases n - i,
    {
        let (strong, weak) = counts[i];
        keep.push(strong > 1 || weak > 0);
        i = i + 1;
        proof {
            assert(keep@ =~= in_use_marks(counts@).take(i as int));
        }
    }
    proof {
        assert(keep@ =~= in_use_marks(counts@));
    }
    let ghost before = *map;
    let before_len = map.len();
    map.retain_marked(&keep);
    proof {
        crate::alias_map::lemma_marked_entries(before.seq(), keep@);
    }
    before_len - map.len()
}

/// A round over documents whose counts all show them in use keeps them
/// all, in order: so, with the counts unchanged, a second round over what a
/// round kept drops nothing, since every document it kept was in use.
pub proof fn retaining_in_use_documents_drops_nothing<V>(s: Seq<(PartAlias, V)>, counts: Seq<(usize, usize)>)
    requires
        counts.len() == s.len(),
        forall|j: int| 0 <= j < counts.len() ==> in_use(#[trigger] counts[j]),
    ensures
        marked_entries(s, in_use_marks(counts)) == s,
    decreases s.len(),
{
    if s.len() > 0 {
        let t = s.drop_last();
        let c = counts.drop_last();
        assert(in_use_marks(counts).take(s.len() - 1) =~= in_use_marks(c));
        assert forall|j: int| 0 <= j < c.len() implies in_use(#[trigger] c[j]) by {
            assert(c[j] == counts[j]);
        }
        retaining_in_use_documents_drops_nothing(t, c);
        assert(in_use(counts[s.len() - 1]));
        assert(marked_entries(s, in_use_marks(counts)) =~= t.push(s.last()));
    } else {
        assert(marked_entries(s, in_use_marks(counts)) =~= s);
    }
}

/// The strong and weak reference counts of the documents of `map`, in the
/// order of its entries.
fn read_counts(map: &AliasMap<Arc<MultipartDocument>>) -> (r: Vec<(usize, usize)>)
    ensures
        r@.len() == map.seq().len(),
{
    let n = map.len();
    let mut counts: Vec<(usize, usize)> = Vec::new();
    let mut i: usize = 0;
    while i < n
        invariant
            n == map.seq().len(),
            i <= n,
            counts@.len() == i,
        decreases n - i,
    {
        let document = &map.entry(i).1;
        counts.push((strong_count(document), weak_count(document)));
        i = i + 1;
    }
    counts
}

/// `small` is `big` with some entries taken out.
pub open spec fn shrunk<V>(big: AliasMap<V>, small: AliasMap<V>) -> bool {
    &&& small@.submap_of(big@)
    &&& small.seq().len() <= big.seq().len()
}

/// Taking entries out twice is taking entries out.
pub proof fn lemma_shrunk_trans<V>(a: AliasMap<V>, b: AliasMap<V>, c: AliasMap<V>)
    requires
        shrunk(a, b),
        shrunk(b, c),
    ensures
        shrunk(a, c),
{
    assert forall|k: Seq<char>| #[trigger] c@.contains_key(k) implies a@.contains_key(k) && c@[k]
        == a@[k] by {
        assert(c@.dom().contains(k));
        assert(b@.dom().contains(k));
        assert(c@[k] == b@[k]);
        assert(a@.dom().contains(k));
        assert(b@[k] == a@[k]);
    }
    assert(c@.dom().subset_of(a@.dom()));
}

/// `idx` lists, in increasing order, the positions in `big` of the entries
/// of `small`.
pub open spec fn picks<V>(idx: Seq<int>, big: Seq<(PartAlias, V)>, small: Seq<(PartAlias, V)>) -> bool {
    &&& idx.len() == small.len()
    &&& forall|i: int| 0 <= i < small.len() ==> 0 <= #[trigger] idx[i] < big.len() && small[i] == big[idx[i]]
    &&& forall|i: int, j: int| 0 <= i < j < small.len() ==> #[trigger] idx[i] < #[trigger] idx[j]
}

/// `small` holds, in their order, some of the entries of `big`.
pub open spec fn in_order_among<V>(big: Seq<(PartAlias, V)>, small: Seq<(PartAlias, V)>) -> bool {
    exists|idx: Seq<int>| #[trigger] picks(idx, big, small)
}

/// The entries that a mask keeps are, in their order, entries of `s`.
pub proof fn lemma_marked_in_order<V>(s: Seq<(PartAlias, V)>, keep: Seq<bool>) -> (idx: Seq<int>)
    requires
        keep.len() == s.len(),
    ensures
        picks(idx, s, marked_entries(s, keep)),
    decreases s.len(),
{
    if s.len() == 0 {
        Seq::empty()
    } else {
        let t = s.drop_last();
        let kt = keep.take(s.len() - 1);
        let g = lemma_marked_in_order(t, kt);
        let rest = marked_entries(t, kt);
        let m = marked_entries(s, keep);
        if keep[s.len() - 1] {
            assert(m == rest.push(s.last()));
            let idx = g.push(s.len() - 1);
            assert forall|i: int| 0 <= i < m.len() implies 0 <= #[trigger] idx[i] < s.len() && m[i] == s[idx[i]] by {
                if i < rest.len() {
                    assert(idx[i] == g[i]);
                    assert(rest[i] == t[g[i]]);
                }
            }
            assert forall|i: int, j: int| 0 <= i < j < m.len() implies #[trigger] idx[i] < #[trigger] idx[j] by {
                assert(idx[i] == g[i]);
                assert(0 <= g[i] < t.len());
                if j < rest.len() {
                    assert(idx[j] == g[j]);
                    assert(g[i] < g[j]);
                }
            }
            idx
        } else {
            assert(m == rest);
            assert forall|i: int| 0 <= i < m.len() implies 0 <= #[trigger] g[i] < s.len() && m[i] == s[g[i]] by {
                assert(rest[i] == t[g[i]]);
            }
            g
        }
    }
}

/// Picking twice is picking.
pub proof fn lemma_in_order_trans<V>(a: Seq<(PartAlias, V)>, b: Seq<(PartAlias, V)>, c: Seq<(PartAlias, V)>)
    requires
        in_order_among(a, b),
        in_order_among(b, c),
    ensures
        in_order_among(a, c),
{
    let f = choose|f: Seq<int>| #[trigger] picks(f, a, b);
    let g = choose|g: Seq<int>| #[trigger] picks(g, b, c);
    let h = Seq::new(c.len(), |i: int| f[g[i]]);
    assert forall|i: int| 0 <= i < c.len() implies 0 <= #[trigger] h[i] < a.len() && c[i] == a[h[i]] by {
        assert(0 <= g[i] < b.len() && c[i] == b[g[i]]);
        assert(0 <= f[g[i]] < a.len() && b[g[i]] == a[f[g[i]]]);
    }
    assert forall|i: int, j: int| 0 <= i < j < c.len() implies #[trigger] h[i] < #[trigger] h[j] by {
        assert(g[i] < g[j]);
        assert(0 <= g[i] < b.len());
        assert(0 <= g[j] < b.len());
        assert(f[g[i]] < f[g[j]]);
    }
    assert(picks(h, a, c));
}

/// Every sequence holds its own entries in order.
pub proof fn lemma_in_order_refl<V>(a: Seq<(PartAlias, V)>)
    ensures
        in_order_among(a, a),
{
    let idx = Seq::new(a.len(), |i: int| i);
    assert(picks(idx, a, a));
}

/// Some alias of `s` has the key `k`.
pub open spec fn has_key(s: Seq<PartAlias>, k: Seq<char>) -> bool {
    exists|a: int| 0 <= a < s.len() && #[trigger] s[a].key() == k
}

/// Some entry among the first `j` of `s` has the key `k`.
pub open spec fn has_key_before<V>(s: Seq<(PartAlias, V)>, j: int, k: Seq<char>) -> bool {
    exists|b: int| 0 <= b < j && #[trigger] s[b].0.key() == k
}

/// The smaller of `n` and the largest `usize`.
pub open spec fn saturated(n: int) -> int {
    if n <= usize::MAX {
        n
    } else {
        usize::MAX as int
    }
}

/// The library documents loaded so far, by kind.
#[derive(Debug)]
pub struct PartCache {
    primitives: AliasMap<Arc<MultipartDocument>>,
    parts: AliasMap<Arc<MultipartDocument>>,
}

impl PartCache {
    /// The cached parts.
    pub closed spec fn parts(self) -> AliasMap<Arc<MultipartDocument>> {
        self.parts
    }

    /// The cached primitives.
    pub closed spec fn primitives(self) -> AliasMap<Arc<MultipartDocument>> {
        self.primitives
    }

    /// The number of cached documents.
    pub open spec fn size(self) -> int {
        (self.parts().seq().len() + self.primitives().seq().len()) as int
    }

    /// What a query for the key `k` finds: a part before a primitive.
    pub open spec fn lookup(self, k: Seq<char>) -> Option<Arc<MultipartDocument>> {
        if self.parts()@.contains_key(k) {
            Some(self.parts()@[k])
        } else if self.primitives()@.contains_key(k) {
            Some(self.primitives()@[k])
        } else {
            None
        }
    }

    /// An empty cache.
    pub fn new() -> (r: Self)
        ensures
            r.parts()@ == Map::<Seq<char>, Arc<MultipartDocument>>::empty(),
            r.primitives()@ == Map::<Seq<char>, Arc<MultipartDocument>>::empty(),
            r.size() == 0,
    {
        PartCache { primitives: AliasMap::new(), parts: AliasMap::new() }
    }

    /// Records a loaded document under its alias, among the parts or the
    /// primitives as `kind` says.
    pub fn register(&mut self, kind: PartKind, alias: PartAlias, document: Arc<MultipartDocument>)
        ensures
            kind == PartKind::Part ==> final(self).parts()@ == old(self).parts()@.insert(
                alias.key(),
                document,
            ) && final(self).primitives() == old(self).primitives(),
            kind == PartKind::Primitive ==> final(self).primitives()@ == old(
                self,
            ).primitives()@.insert(alias.key(), document) && final(self).parts() == old(
                self,
            ).parts(),
    {
        match kind {
            PartKind::Part => self.parts.insert(alias, document),
            PartKind::Primitive => self.primitives.insert(alias, document),
        }
    }

    /// The cached document for `alias`: a part if there is one, else a
    /// primitive.
    pub fn query(&self, alias: &PartAlias) -> (r: Option<Arc<MultipartDocument>>)
        ensures
            r == self.lookup(alias.key()),
    {
        match self.parts.get(alias) {
            Some(part) => Some(share(part)),
            None => match self.primitives.get(alias) {
                Some(primitive) => Some(share(primitive)),
                None => None,
            },
        }
    }

    /// Drops from `map` the documents that nothing outside the cache uses,
    /// by the reference counts read for them now, and returns how many it
    /// dropped.
    fn collect_map(map: &mut AliasMap<Arc<MultipartDocument>>) -> (r: usize)
        ensures
            shrunk(*old(map), *final(map)),
            kept_in_use(*old(map), *final(map)),
            in_order_among(old(map).seq(), final(map).seq()),
            r == old(map).seq().len() - final(map).seq().len(),
    {
        let counts = read_counts(map);
        let ghost before = *map;
        let dropped = retain_in_use(map, &counts);
        proof {
            assert(counts@.len() == before.seq().len() && map.seq() == marked_entries(
                before.seq(),
                in_use_marks(counts@),
            ));
            let idx = lemma_marked_in_order(before.seq(), in_use_marks(counts@));
            assert(picks(idx, before.seq(), map.seq()));
        }
        dropped
    }

    /// One round of collection: drops the documents, among those that
    /// `strategy` names, that nothing outside the cache uses. Returns how many
    /// it dropped.
    pub fn collect_round(&mut self, strategy: CacheCollectionStrategy) -> (r: usize)
        ensures
            shrunk(old(self).parts(), final(self).parts()),
            shrunk(old(self).primitives(), final(self).primitives()),
            in_order_among(old(self).parts().seq(), final(self).parts().seq()),
            in_order_among(old(self).primitives().seq(), final(self).primitives().seq()),
            strategy != CacheCollectionStrategy::Primitives ==> kept_in_use(old(self).parts(), final(self).parts()),
            strategy != CacheCollectionStrategy::Parts ==> kept_in_use(
                old(self).primitives(),
                final(self).primitives(),
            ),
            strategy == CacheCollectionStrategy::Parts ==> final(self).primitives() == old(
                self,
            ).primitives(),
            strategy == CacheCollectionStrategy::Primitives ==> final(self).parts() == old(
                self,
            ).parts(),
            r == saturated(old(self).size() - final(self).size()),
    {
        proof {
            lemma_in_order_refl(self.parts.seq());
            lemma_in_order_refl(self.primitives.seq());
        }
        match strategy {
            CacheCollectionStrategy::Parts => Self::collect_map(&mut self.parts),
            CacheCollectionStrategy::Primitives => Self::collect_map(&mut self.primitives),
            CacheCollectionStrategy::PartsAndPrimitives => {
                let from_parts = Self::collect_map(&mut self.parts);
                let from_primitives = Self::collect_map(&mut self.primitives);
                match from_parts.checked_add(from_primitives) {
                    Some(total) => total,
                    None => usize::MAX,
                }
            },
        }
    }

    /// Collects round after round until a round drops nothing, and returns
    /// how many documents it dropped in all.
    pub fn collect(&mut self, strategy: CacheCollectionStrategy) -> (r: usize)
        ensures
            shrunk(old(self).parts(), final(self).parts()),
            shrunk(old(self).primitives(), final(self).primitives()),
            in_order_among(old(self).parts().seq(), final(self).parts().seq()),
            in_order_among(old(self).primitives().seq(), final(self).primitives().seq()),
            strategy == CacheCollectionStrategy::Parts ==> final(self).primitives() == old(
                self,
            ).primitives(),
            strategy == CacheCollectionStrategy::Primitives ==> final(self).parts() == old(
                self,
            ).parts(),
            r == saturated(old(self).size() - final(self).size()),
    {
        let ghost start = *self;
        proof {
            lemma_in_order_refl(start.parts().seq());
            lemma_in_order_refl(start.primitives().seq());
        }
        let mut total_collected: usize = 0;
        loop
            invariant
                shrunk(start.parts(), self.parts()),
                shrunk(start.primitives(), self.primitives()),
                in_order_among(start.parts().seq(), self.parts().seq()),
                in_order_among(start.primitives().seq(), self.primitives().seq()),
                strategy == CacheCollectionStrategy::Parts ==> self.primitives() == start.primitives(),
                strategy == CacheCollectionStrategy::Primitives ==> self.parts() == start.parts(),
                total_collected == saturated(start.size() - self.size()),
            decreases self.size(),
        {
            let ghost before = *self;
            let collected = self.collect_round(strategy);
            proof {
                lemma_shrunk_trans(start.parts(), before.parts(), self.parts());
                lemma_shrunk_trans(start.primitives(), before.primitives(), self.primitives());
                lemma_in_order_trans(start.parts().seq(), before.parts().seq(), self.parts().seq());
                lemma_in_order_trans(start.primitives().seq(), before.primitives().seq(), self.primitives().seq());
            }
            if collected == 0 {
                break;
            }
            total_collected = match total_collected.checked_add(collected) {
                Some(sum) => sum,
                None => usize::MAX,
            };
        }
        total_collected
    }
}

impl Default for PartCache {
    fn default() -> (r: Self)
        ensures
            r.parts()@ == Map::<Seq<char>, Arc<MultipartDocument>>::empty(),
            r.primitives()@ == Map::<Seq<char>, Arc<MultipartDocument>>::empty(),
    {
        PartCache::new()
    }
}

/// The documents found next to the document being resolved, by name.
#[derive(Debug)]
pub struct TransientDocumentCache {
    documents: AliasMap<Arc<MultipartDocument>>,
}

impl TransientDocumentCache {
    /// The documents held.
    pub closed spec fn documents(self) -> AliasMap<Arc<MultipartDocument>> {
        self.documents
    }

    /// An empty cache.
    pub fn new() -> (r: Self)
        ensures
            r.documents()@ == Map::<Seq<char>, Arc<MultipartDocument>>::empty(),
    {
        TransientDocumentCache { documents: AliasMap::new() }
    }

    /// Records a document under its alias.
    pub fn register(&mut self, alias: PartAlias, document: Arc<MultipartDocument>)
        ensures
            final(self).documents()@ == old(self).documents()@.insert(alias.key(), document),
    {
        self.documents.insert(alias, document);
    }

    /// The document recorded for `alias`, if any.
    pub fn query(&self, alias: &PartAlias) -> (r: Option<Arc<MultipartDocument>>)
        ensures
            r == (if self.documents()@.contains_key(alias.key()) {
                Some(self.documents()@[alias.key()])
            } else {
                None
            }),
    {
        match self.documents.get(alias) {
            Some(document) => Some(share(document)),
            None => None,
        }
    }
}

/// What is known of a referenced part while its dependencies are resolved.
#[derive(Debug)]
pub enum ResolutionState {
    /// Loading it failed.
    Missing(ResolutionError),
    /// It still has to be loaded.
    Pending,
    /// It is a subpart embedded in a document already at hand.
    Subpart,
    /// It was loaded (or found in a cache) as this document.
    Associated(Arc<MultipartDocument>),
}

/// The documents that a state map associates with their keys.
pub open spec fn associated_documents(
    m: Map<Seq<char>, ResolutionState>,
) -> Map<Seq<char>, Arc<MultipartDocument>> {
    Map::new(
        |k: Seq<char>| m.contains_key(k) && m[k] is Associated,
        |k: Seq<char>| m[k]->Associated_0,
    )
}

/// The errors that a state map records for the keys it could not load.
pub open spec fn missing_errors(m: Map<Seq<char>, ResolutionState>) -> Map<Seq<char>, ResolutionError> {
    Map::new(|k: Seq<char>| m.contains_key(k) && m[k] is Missing, |k: Seq<char>| m[k]->Missing_0)
}

/// The entries of `s` whose state is a document, in order, each with its
/// alias as written there and its document.
pub open spec fn associated_entries(
    s: Seq<(PartAlias, ResolutionState)>,
) -> Seq<(PartAlias, Arc<MultipartDocument>)>
    decreases s.len(),
{
    if s.len() == 0 {
        Seq::empty()
    } else {
        associated_entries(s.drop_last()) + match s.last().1 {
            ResolutionState::Associated(d) => seq![(s.last().0, d)],
            _ => Seq::empty(),
        }
    }
}

/// The failures `s` after the failures of the states `states` are added in
/// order: a key already there takes the new error and keeps its alias as
/// first written; a new key comes last.
pub open spec fn with_failures(
    s: Seq<(PartAlias, ResolutionError)>,
    states: Seq<(PartAlias, ResolutionState)>,
) -> Seq<(PartAlias, ResolutionError)>
    decreases states.len(),
{
    if states.len() == 0 {
        s
    } else {
        let rest = with_failures(s, states.drop_last());
        match states.last().1 {
            ResolutionState::Missing(e) => inserted(rest, states.last().0, e),
            _ => rest,
        }
    }
}

/// Splits a resolver state map into the resolved documents, which it
/// returns, and the failures, which it adds to `failures`. Pending states and
/// subparts are dropped.
pub fn partition_resolver_map(
    map: AliasMap<ResolutionState>,
    failures: &mut AliasMap<ResolutionError>,
) -> (r: AliasMap<Arc<MultipartDocument>>)
    ensures
        r@ == associated_documents(map@),
        r.seq() == associated_entries(map.seq()),
        final(failures)@ == old(failures)@.union_prefer_right(missing_errors(map@)),
        final(failures).seq() == with_failures(old(failures).seq(), map.seq()),
{
    proof {
        use_type_invariant(&map);
        map.lemma_view();
    }
    let ghost all = map.seq();
    let entries = map.into_entries();
    let mut resolved: AliasMap<Arc<MultipartDocument>> = AliasMap::new();
    let ghost start = failures@;
    let ghost start_seq = failures.seq();
    let ghost empty_states = Map::<Seq<char>, ResolutionState>::empty();
    proof {
        assert(all.take(0) =~= Seq::<(PartAlias, ResolutionState)>::empty());
        assert(associated_documents(empty_states) =~= Map::empty());
        assert(missing_errors(empty_states) =~= Map::empty());
        assert(start.union_prefer_right(Map::empty()) =~= start);
    }
    for entry in it: entries
        invariant
            all == it.seq(),
            crate::alias_map::distinct_keys(all),
            resolved@ == associated_documents(crate::alias_map::entries_map(all.take(it.index() as int))),
            resolved.seq() == associated_entries(all.take(it.index() as int)),
            failures.seq() == with_failures(start_seq, all.take(it.index() as int)),
            failures@ == start.union_prefer_right(
                missing_errors(crate::alias_map::entries_map(all.take(it.index() as int))),
            ),
    {
        let ghost i = it.index() as int;
        let ghost prefix = all.take(i);
        let ghost next = all.take(i + 1);
        proof {
            assert(next.drop_last() =~= prefix);
            assert(next.last() == all[i]);
            crate::alias_map::lemma_entries_map_contains(prefix, all[i].0.key());
            if crate::alias_map::entries_map(prefix).contains_key(all[i].0.key()) {
                let j = choose|j: int| 0 <= j < prefix.len() && #[trigger] prefix[j].0.key() == all[i].0.key();
                assert(all[j].0.key() != all[i].0.key());
            }
        }
        let (alias, state) = entry;
        let ghost m0 = crate::alias_map::entries_map(prefix);
        let ghost k = alias.key();
        match state {
            ResolutionState::Associated(document) => {
                let ghost d = document;
                resolved.insert(alias, document);
                proof {
                    assert(associated_entries(next) =~= associated_entries(prefix).push((all[i].0, d)));
                    assert(associated_documents(crate::alias_map::entries_map(next)) =~= associated_documents(
                        m0,
                    ).insert(k, d));
                    assert(missing_errors(crate::alias_map::entries_map(next)) =~= missing_errors(m0));
                }
            },
            ResolutionState::Missing(error) => {
                let ghost e = error;
                failures.insert(alias, error);
                proof {
                    assert(associated_entries(next) =~= associated_entries(prefix));
                    assert(associated_documents(crate::alias_map::entries_map(next)) =~= associated_documents(
                        m0,
                    ));
                    assert(missing_errors(crate::alias_map::entries_map(next)) =~= missing_errors(m0).insert(
                        k,
                        e,
                    ));
                    assert(start.union_prefer_right(missing_errors(m0)).insert(k, e) =~= start.union_prefer_right(
                        missing_errors(m0).insert(k, e),
                    ));
                }
            },
            _ => {
                proof {
                    assert(associated_entries(next) =~= associated_entries(prefix));
                    assert(associated_documents(crate::alias_map::entries_map(next)) =~= associated_documents(
                        m0,
                    ));
                    assert(missing_errors(crate::alias_map::entries_map(next)) =~= missing_errors(m0));
                }
            },
        }
    }
    proof {
        assert(all.take(all.len() as int) =~= all);
    }
    resolved
}

/// The outcome of resolving the dependencies of a document: the documents
/// found in the library, those found next to the document, and the failures.
#[derive(Debug)]
pub struct ResolutionResult {
    library_entries: AliasMap<Arc<MultipartDocument>>,
    local_entries: AliasMap<Arc<MultipartDocument>>,
    failures: AliasMap<ResolutionError>,
}

impl ResolutionResult {
    /// The documents resolved from the library.
    pub closed spec fn library(self) -> AliasMap<Arc<MultipartDocument>> {
        self.library_entries
    }

    /// The documents resolved next to the document.
    pub closed spec fn local(self) -> AliasMap<Arc<MultipartDocument>> {
        self.local_entries
    }

    /// The references that could not be resolved.
    pub closed spec fn failed(self) -> AliasMap<ResolutionError> {
        self.failures
    }

    /// Assembles a result from its three parts.
    pub fn from_parts(
        library_entries: AliasMap<Arc<MultipartDocument>>,
        local_entries: AliasMap<Arc<MultipartDocument>>,
        failures: AliasMap<ResolutionError>,
    ) -> (r: Self)
        ensures
            r.library() == library_entries,
            r.local() == local_entries,
            r.failed() == failures,
    {
        ResolutionResult { library_entries, local_entries, failures }
    }

    /// An empty result.
    pub fn new() -> (r: Self)
        ensures
            r.library()@ == Map::<Seq<char>, Arc<MultipartDocument>>::empty(),
            r.local()@ == Map::<Seq<char>, Arc<MultipartDocument>>::empty(),
            r.failed()@ == Map::<Seq<char>, ResolutionError>::empty(),
    {
        ResolutionResult {
            library_entries: AliasMap::new(),
            local_entries: AliasMap::new(),
            failures: AliasMap::new(),
        }
    }

    /// What a query finds for the key `k`: with `local`, a local entry before
    /// a library entry; without it, only library entries. The flag tells
    /// whether the hit came from the local entries.
    pub open spec fn lookup(self, k: Seq<char>, local: bool) -> Option<(Arc<MultipartDocument>, bool)> {
        if local && self.local()@.contains_key(k) {
            Some((self.local()@[k], true))
        } else if self.library()@.contains_key(k) {
            Some((self.library()@[k], false))
        } else {
            None
        }
    }

    /// Looks up the resolved document for `alias`. With `local`, local
    /// entries are preferred over library entries; without it only library
    /// entries are searched. The flag returned says whether the hit came from
    /// the local entries.
    pub fn query(&self, alias: &PartAlias, local: bool) -> (r: Option<(Arc<MultipartDocument>, bool)>)
        ensures
            r == self.lookup(alias.key(), local),
    {
        if local {
            if let Some(e) = self.local_entries.get(alias) {
                return Some((share(e), true));
            }
        }
        match self.library_entries.get(alias) {
            Some(e) => Some((share(e), false)),
            None => None,
        }
    }

    /// The aliases of all resolved documents, library and local, each key
    /// once; where both have a key, the library's alias is given.
    pub fn list_dependencies(&self) -> (r: Vec<PartAlias>)
        ensures
            forall|i: int, j: int| 0 <= i < j < r@.len() ==> #[trigger] r@[i].key() != #[trigger] r@[j].key(),
            forall|k: Seq<char>|
                #[trigger] has_key(r@, k) <==> (self.library()@.contains_key(k) || self.local()@.contains_key(k)),
            forall|i: int|
                0 <= i < r@.len() ==> (exists|j: int|
                    0 <= j < self.library().seq().len() && #[trigger] self.library().seq()[j].0 == r@[i])
                    || (!self.library()@.contains_key(r@[i].key()) && exists|j: int|
                    0 <= j < self.local().seq().len() && #[trigger] self.local().seq()[j].0 == r@[i]),
    {
        proof {
            use_type_invariant(&self.library_entries);
            use_type_invariant(&self.local_entries);
            self.library_entries.lemma_view();
            self.local_entries.lemma_view();
        }
        let ghost lib = self.library().seq();
        let ghost loc = self.local().seq();
        let mut result: Vec<PartAlias> = Vec::new();
        let n = self.library_entries.len();
        let mut i: usize = 0;
        while i < n
            invariant
                n == lib.len(),
                lib == self.library().seq(),
                i <= n,
                result@.len() == i,
                forall|j: int| 0 <= j < i ==> result@[j] == #[trigger] lib[j].0,
            decreases n - i,
        {
            result.push(self.library_entries.entry(i).0.clone());
            i = i + 1;
        }
        let m = self.local_entries.len();
        let mut j: usize = 0;
        let ghost mut origin: Seq<int> = Seq::empty();
        proof {
            assert forall|a: int, b: int| 0 <= a < b < result@.len() implies #[trigger] result@[a].key()
                != #[trigger] result@[b].key() by {
                assert(result@[a] == lib[a].0 && result@[b] == lib[b].0);
            }
            assert forall|k: Seq<char>| #[trigger] has_key(result@, k) <==> (self.library()@.contains_key(k)
                || has_key_before(loc, j as int, k)) by {
                if has_key(result@, k) {
                    let a = choose|a: int| 0 <= a < result@.len() && #[trigger] result@[a].key() == k;
                    assert(lib[a].0.key() == k);
                }
                if self.library()@.contains_key(k) {
                    let a = choose|a: int| 0 <= a < lib.len() && #[trigger] lib[a].0.key() == k;
                    assert(result@[a].key() == k);
                }
            }
        }
        while j < m
            invariant
                m == loc.len(),
                n == lib.len(),
                lib == self.library().seq(),
                loc == self.local().seq(),
                j <= m,
                n <= result@.len(),
                origin.len() == result@.len() - n,
                crate::alias_map::distinct_keys(loc),
                forall|a: int| 0 <= a < n ==> result@[a] == #[trigger] lib[a].0,
                forall|a: int, b: int| 0 <= a < b < result@.len() ==> #[trigger] result@[a].key() != #[trigger] result@[b].key(),
                forall|k: Seq<char>|
                    #[trigger] has_key(result@, k) <==> (self.library()@.contains_key(k) || has_key_before(loc, j as int, k)),
                forall|a: int|
                    n <= a < result@.len() ==> 0 <= #[trigger] origin[a - n] < j && loc[origin[a - n]].0 == result@[a]
                        && !self.library()@.contains_key(result@[a].key()),
            decreases m - j,
        {
            let alias = &self.local_entries.entry(j).0;
            let ghost before = result@;
            let ghost kj = loc[j as int].0.key();
            proof {
                use_type_invariant(&self.library_entries);
                self.library_entries.lemma_view();
            }
            if !self.library_entries.contains_key(alias) {
                result.push(alias.clone());
                proof {
                    let o0 = origin;
                    origin = origin.push(j as int);
                    assert forall|a: int| n <= a < result@.len() implies 0 <= #[trigger] origin[a - n] < j + 1
                        && loc[origin[a - n]].0 == result@[a] && !self.library()@.contains_key(result@[a].key()) by {
                        if a < before.len() {
                            assert(origin[a - n] == o0[a - n]);
                        }
                    }
                    assert forall|a: int, b: int| 0 <= a < b < result@.len() implies #[trigger] result@[a].key()
                        != #[trigger] result@[b].key() by {
                        if b == before.len() {
                            if a >= n {
                                assert(o0[a - n] < j);
                                assert(loc[o0[a - n]].0.key() != loc[j as int].0.key());
                            } else {
                                assert(self.library()@.contains_key(lib[a].0.key()));
                            }
                        }
                    }
                }
            }
            proof {
                assert forall|k: Seq<char>| #[trigger] has_key(result@, k) <==> (self.library()@.contains_key(k)
                    || has_key_before(loc, j + 1, k)) by {
                    assert(has_key(before, k) <==> (self.library()@.contains_key(k) || has_key_before(loc, j as int, k)));
                    if has_key(result@, k) {
                        let a = choose|a: int| 0 <= a < result@.len() && #[trigger] result@[a].key() == k;
                        if a < before.len() {
                            assert(before[a].key() == k);
                            if has_key_before(loc, j as int, k) {
                                let b = choose|b: int| 0 <= b < j && #[trigger] loc[b].0.key() == k;
                                assert(loc[b].0.key() == k);
                            }
                        } else {
                            assert(loc[j as int].0.key() == k);
                        }
                    }
                    if has_key_before(loc, j as int, k) {
                        let b = choose|b: int| 0 <= b < j && #[trigger] loc[b].0.key() == k;
                        assert(loc[b].0.key() == k);
                    }
                    if self.library()@.contains_key(k) || has_key_before(loc, j + 1, k) {
                        if self.library()@.contains_key(k) || has_key_before(loc, j as int, k) {
                            let a = choose|a: int| 0 <= a < before.len() && #[trigger] before[a].key() == k;
                            assert(result@[a].key() == k);
                        } else {
                            let b = choose|b: int| 0 <= b < j + 1 && #[trigger] loc[b].0.key() == k;
                            if b < j {
                                assert(has_key_before(loc, j as int, k));
                            }
                            assert(k == kj);
                            assert(result@[before.len() as int].key() == k);
                        }
                    }
                }
            }
            j = j + 1;
        }
        proof {
            assert forall|k: Seq<char>| #[trigger] has_key(result@, k) <==> (self.library()@.contains_key(k)
                || self.local()@.contains_key(k)) by {
                if self.local()@.contains_key(k) {
                    let b = choose|b: int| 0 <= b < loc.len() && #[trigger] loc[b].0.key() == k;
                    assert(has_key_before(loc, m as int, k));
                }
                if has_key_before(loc, m as int, k) {
                    let b = choose|b: int| 0 <= b < m && #[trigger] loc[b].0.key() == k;
                    assert(self.local()@.contains_key(loc[b].0.key()));
                }
            }
            assert forall|i: int| 0 <= i < result@.len() implies (exists|j: int|
                0 <= j < lib.len() && #[trigger] lib[j].0 == result@[i]) || (!self.library()@.contains_key(
                result@[i].key(),
            ) && exists|j: int| 0 <= j < loc.len() && #[trigger] loc[j].0 == result@[i]) by {
                if i < n {
                    assert(lib[i].0 == result@[i]);
                } else {
                    assert(loc[origin[i - n]].0 == result@[i]);
                }
            }
        }
        result
    }

    /// The references that could not be resolved, with the error that
    /// loading each of them gave.
    pub fn failures(&self) -> (r: &AliasMap<ResolutionError>)
        ensures
            *r == self.failed(),
    {
        &self.failures
    }

    /// Some reference could not be resolved.
    pub fn has_failures(&self) -> (r: bool)
        ensures
            r == !self.failed()@.is_empty(),
    {
        !self.failures.is_empty()
    }
}

/// The keys referred to by the documents of `s`, subparts included.
pub open spec fn shared_keys(s: Seq<(PartAlias, Arc<MultipartDocument>)>) -> Seq<Seq<char>> {
    gather(s, |e: (PartAlias, Arc<MultipartDocument>)| multipart_keys(*e.1))
}

/// The keys referred to by the documents of a cache.
pub open spec fn cache_keys(cache: PartCache) -> Seq<Seq<char>> {
    shared_keys(cache.parts().seq()) + shared_keys(cache.primitives().seq())
}

/// A document held under some key of an alias map has its references among
/// the map's shared keys.
pub proof fn lemma_shared_keys_contains(m: AliasMap<Arc<MultipartDocument>>, k: Seq<char>, x: Seq<char>)
    requires
        m.inv(),
        m@.contains_key(k),
        multipart_keys(*m@[k]).contains(x),
    ensures
        shared_keys(m.seq()).contains(x),
{
    m.lemma_view();
    let i = choose|i: int| 0 <= i < m.seq().len() && #[trigger] m.seq()[i].0.key() == k;
    lemma_gather_contains(m.seq(), |e: (PartAlias, Arc<MultipartDocument>)| multipart_keys(*e.1), i, x);
}

/// The references of a subpart of a multipart document are among the
/// document's keys.
pub proof fn lemma_subpart_keys(parent: MultipartDocument, k: Seq<char>, x: Seq<char>)
    requires
        parent.subparts.inv(),
        parent.subparts@.contains_key(k),
        document_keys(parent.subparts@[k]).contains(x),
    ensures
        multipart_keys(parent).contains(x),
{
    parent.subparts.lemma_view();
    let i = choose|i: int| 0 <= i < parent.subparts.seq().len() && #[trigger] parent.subparts.seq()[i].0.key() == k;
    lemma_gather_contains(parent.subparts.seq(), |e: (PartAlias, Document)| document_keys(e.1), i, x);
    lemma_concat_contains(
        document_keys(parent.body),
        gather(parent.subparts.seq(), |e: (PartAlias, Document)| document_keys(e.1)),
        x,
    );
}

/// The names of the subparts of the documents of `m`.
pub open spec fn shared_subparts(m: AliasMap<Arc<MultipartDocument>>) -> Set<Seq<char>> {
    Set::new(|x: Seq<char>| exists|i: int| 0 <= i < m.seq().len() && #[trigger] m.seq()[i].1.subparts@.contains_key(x))
}

/// The names of the subparts of `parent`, if there is one.
pub open spec fn parent_subparts(parent: Option<&MultipartDocument>) -> Set<Seq<char>> {
    match parent {
        Some(p) => p.subparts@.dom(),
        None => Set::empty(),
    }
}

/// The names that a scan may take for subparts: those of the document being
/// scanned (`names`), and those of the documents in the cache and among the
/// local documents, which a scan walks in turn.
pub open spec fn subpart_scope(
    names: Set<Seq<char>>,
    cache: PartCache,
    locals: AliasMap<Arc<MultipartDocument>>,
) -> Set<Seq<char>> {
    names + shared_subparts(cache.parts()) + shared_subparts(cache.primitives()) + shared_subparts(locals)
}

/// The subparts of a document held in an alias map are among the map's
/// subpart names.
pub proof fn lemma_shared_subparts(m: AliasMap<Arc<MultipartDocument>>, k: Seq<char>)
    requires
        m.inv(),
        m@.contains_key(k),
    ensures
        m@[k].subparts@.dom().subset_of(shared_subparts(m)),
{
    m.lemma_view();
    let i = choose|i: int| 0 <= i < m.seq().len() && #[trigger] m.seq()[i].0.key() == k;
    assert forall|x: Seq<char>| #[trigger] m@[k].subparts@.contains_key(x) implies shared_subparts(m).contains(x) by {
        assert(m.seq()[i].1.subparts@.contains_key(x));
    }
}

/// A state that a scan may give to the key `k` in the state map chosen by
/// `local`: a subpart, when `k` names one in `scope`; the document found for
/// `k` among the local documents (local map) or in the cache (library map);
/// or pending, when no such document exists.
pub open spec fn scanned_state(
    k: Seq<char>,
    state: ResolutionState,
    local: bool,
    cache: PartCache,
    locals: AliasMap<Arc<MultipartDocument>>,
    scope: Set<Seq<char>>,
) -> bool {
    match state {
        ResolutionState::Associated(d) => if local {
            locals@.contains_key(k) && locals@[k] == d
        } else {
            cache.lookup(k) == Some(d)
        },
        ResolutionState::Pending => cache.lookup(k) is None && (local ==> !locals@.contains_key(k)),
        ResolutionState::Subpart => scope.contains(k),
        ResolutionState::Missing(_) => false,
    }
}

/// `after` keeps every key of `before`; each of its entries is either the
/// one of `before` or a state that a scan may give.
pub open spec fn grown(
    before: Map<Seq<char>, ResolutionState>,
    after: Map<Seq<char>, ResolutionState>,
    local: bool,
    cache: PartCache,
    locals: AliasMap<Arc<MultipartDocument>>,
    scope: Set<Seq<char>>,
) -> bool {
    &&& before.dom().subset_of(after.dom())
    &&& forall|k: Seq<char>| #[trigger] after.contains_key(k) ==> (before.contains_key(k) && after[k] == before[k])
        || scanned_state(k, after[k], local, cache, locals, scope)
}

/// Every document that `after` associates with a key, where `before` did
/// not associate that document with it, has had the references of its body
/// walked: each has a state in `r` (as `local` says).
pub open spec fn followed(
    before: Map<Seq<char>, ResolutionState>,
    after: Map<Seq<char>, ResolutionState>,
    r: DependencyResolver,
    local: bool,
) -> bool {
    forall|k: Seq<char>, i: int|
        #![trigger after[k]->Associated_0.body.commands@[i]]
        after.contains_key(k) && after[k] is Associated && !(before.contains_key(k) && before[k] == after[k]) && 0
            <= i < after[k]->Associated_0.body.commands@.len() && after[k]->Associated_0.body.commands@[i] is PartReference
            ==> r.covered(after[k]->Associated_0.body.commands@[i]->PartReference_0.name.key(), local)
}

/// Walking in two steps is walking: what the first step walked stays
/// covered, since states are only ever added.
pub proof fn lemma_followed_trans(
    a: Map<Seq<char>, ResolutionState>,
    b: Map<Seq<char>, ResolutionState>,
    c: Map<Seq<char>, ResolutionState>,
    rb: DependencyResolver,
    rc: DependencyResolver,
    local: bool,
)
    requires
        followed(a, b, rb, local),
        followed(b, c, rc, local),
        rb.map@.dom().subset_of(rc.map@.dom()),
        rb.local_map@.dom().subset_of(rc.local_map@.dom()),
    ensures
        followed(a, c, rc, local),
{
    assert forall|k: Seq<char>, i: int|
        c.contains_key(k) && c[k] is Associated && !(a.contains_key(k) && a[k] == c[k]) && 0 <= i
            < c[k]->Associated_0.body.commands@.len() && #[trigger] c[k]->Associated_0.body.commands@[i] is PartReference
        implies rc.covered(c[k]->Associated_0.body.commands@[i]->PartReference_0.name.key(), local) by {
        if b.contains_key(k) && b[k] == c[k] {
            assert(b[k]->Associated_0.body.commands@[i] == c[k]->Associated_0.body.commands@[i]);
            assert(rb.covered(c[k]->Associated_0.body.commands@[i]->PartReference_0.name.key(), local));
        }
    }
}

/// Giving one key a state, and then walking, is walking, when the state is
/// a document whose body has been walked, or no document at all.
pub proof fn lemma_followed_insert(
    start: Map<Seq<char>, ResolutionState>,
    after: Map<Seq<char>, ResolutionState>,
    r: DependencyResolver,
    k: Seq<char>,
    v: ResolutionState,
    local: bool,
)
    requires
        followed(start.insert(k, v), after, r, local),
        v matches ResolutionState::Associated(d) ==> forall|i: int|
            0 <= i < d.body.commands@.len() && #[trigger] d.body.commands@[i] is PartReference ==> r.covered(
                d.body.commands@[i]->PartReference_0.name.key(),
                local,
            ),
    ensures
        followed(start, after, r, local),
{
    let mid = start.insert(k, v);
    assert forall|x: Seq<char>, i: int|
        after.contains_key(x) && after[x] is Associated && !(start.contains_key(x) && start[x] == after[x]) && 0
            <= i < after[x]->Associated_0.body.commands@.len()
            && #[trigger] after[x]->Associated_0.body.commands@[i] is PartReference
        implies r.covered(after[x]->Associated_0.body.commands@[i]->PartReference_0.name.key(), local) by {
        if mid.contains_key(x) && mid[x] == after[x] {
            if x != k {
                assert(start.contains_key(x) && start[x] == mid[x]);
            }
        }
    }
}

/// Giving one key a state after walking is walking, when the state is a
/// document whose body has been walked, or no document at all.
pub proof fn lemma_followed_after_insert(
    a: Map<Seq<char>, ResolutionState>,
    b: Map<Seq<char>, ResolutionState>,
    r: DependencyResolver,
    r2: DependencyResolver,
    k: Seq<char>,
    v: ResolutionState,
    local: bool,
)
    requires
        followed(a, b, r, local),
        r.map@.dom().subset_of(r2.map@.dom()),
        r.local_map@.dom().subset_of(r2.local_map@.dom()),
        v matches ResolutionState::Associated(d) ==> forall|i: int|
            0 <= i < d.body.commands@.len() && #[trigger] d.body.commands@[i] is PartReference ==> r2.covered(
                d.body.commands@[i]->PartReference_0.name.key(),
                local,
            ),
    ensures
        followed(a, b.insert(k, v), r2, local),
{
    let c = b.insert(k, v);
    assert forall|x: Seq<char>, i: int|
        c.contains_key(x) && c[x] is Associated && !(a.contains_key(x) && a[x] == c[x]) && 0 <= i
            < c[x]->Associated_0.body.commands@.len() && #[trigger] c[x]->Associated_0.body.commands@[i] is PartReference
        implies r2.covered(c[x]->Associated_0.body.commands@[i]->PartReference_0.name.key(), local) by {
        if x != k {
            assert(c[x] == b[x]);
            assert(r.covered(c[x]->Associated_0.body.commands@[i]->PartReference_0.name.key(), local));
        }
    }
}

/// Walking from `a2` is walking from `a` when the two agree on every key
/// but `k`, and a document that the walk gave `k` has had its body walked.
pub proof fn lemma_followed_same_except(
    a: Map<Seq<char>, ResolutionState>,
    a2: Map<Seq<char>, ResolutionState>,
    b: Map<Seq<char>, ResolutionState>,
    r: DependencyResolver,
    k: Seq<char>,
    local: bool,
)
    requires
        followed(a2, b, r, local),
        forall|x: Seq<char>| x != k ==> (a.contains_key(x) <==> a2.contains_key(x)),
        forall|x: Seq<char>| x != k && a.contains_key(x) ==> a[x] == a2[x],
        b.contains_key(k) && b[k] is Associated && !(a.contains_key(k) && a[k] == b[k]) ==> forall|i: int|
            0 <= i < b[k]->Associated_0.body.commands@.len() && #[trigger] b[k]->Associated_0.body.commands@[i] is PartReference
                ==> r.covered(b[k]->Associated_0.body.commands@[i]->PartReference_0.name.key(), local),
    ensures
        followed(a, b, r, local),
{
    assert forall|x: Seq<char>, i: int|
        b.contains_key(x) && b[x] is Associated && !(a.contains_key(x) && a[x] == b[x]) && 0 <= i
            < b[x]->Associated_0.body.commands@.len() && #[trigger] b[x]->Associated_0.body.commands@[i] is PartReference
        implies r.covered(b[x]->Associated_0.body.commands@[i]->PartReference_0.name.key(), local) by {
        if x != k {
            if a2.contains_key(x) {
                assert(a.contains_key(x));
            }
        }
    }
}

/// Growing, all but one key, is growing without that key.
pub proof fn lemma_grown_remove(
    a: Map<Seq<char>, ResolutionState>,
    b: Map<Seq<char>, ResolutionState>,
    k: Seq<char>,
    local: bool,
    cache: PartCache,
    locals: AliasMap<Arc<MultipartDocument>>,
    scope: Set<Seq<char>>,
)
    requires
        grown(a, b, local, cache, locals, scope),
    ensures
        grown(a.remove(k), b.remove(k), local, cache, locals, scope),
{
}

/// Growing twice is growing.
pub proof fn lemma_grown_trans(
    a: Map<Seq<char>, ResolutionState>,
    b: Map<Seq<char>, ResolutionState>,
    c: Map<Seq<char>, ResolutionState>,
    local: bool,
    cache: PartCache,
    locals: AliasMap<Arc<MultipartDocument>>,
    scope: Set<Seq<char>>,
)
    requires
        grown(a, b, local, cache, locals, scope),
        grown(b, c, local, cache, locals, scope),
    ensures
        grown(a, c, local, cache, locals, scope),
{
    assert forall|k: Seq<char>| #[trigger] c.contains_key(k) implies (a.contains_key(k) && c[k] == a[k])
        || scanned_state(k, c[k], local, cache, locals, scope) by {
        if b.contains_key(k) && c[k] == b[k] {
        }
    }
}

/// Every map has grown from itself.
pub proof fn lemma_grown_refl(
    a: Map<Seq<char>, ResolutionState>,
    local: bool,
    cache: PartCache,
    locals: AliasMap<Arc<MultipartDocument>>,
    scope: Set<Seq<char>>,
)
    ensures
        grown(a, a, local, cache, locals, scope),
{
}

/// The references of the body of a document are among its keys.
pub proof fn lemma_body_keys(m: Arc<MultipartDocument>, universe: Set<Seq<char>>)
    requires
        multipart_keys(*m).to_set().subset_of(universe),
    ensures
        document_keys(m.body).to_set().subset_of(universe),
{
    assert forall|x: Seq<char>| #[trigger] document_keys(m.body).to_set().contains(x) implies universe.contains(x) by {
        lemma_concat_contains(
            document_keys(m.body),
            gather(m.subparts.seq(), |e: (PartAlias, Document)| document_keys(e.1)),
            x,
        );
    }
}

/// The document that a cache holds for a key has its references among the
/// cache's keys.
pub proof fn lemma_cached_keys(cache: PartCache, k: Seq<char>, universe: Set<Seq<char>>)
    requires
        cache.parts().inv(),
        cache.primitives().inv(),
        cache.lookup(k) is Some,
        cache_keys(cache).to_set().subset_of(universe),
    ensures
        multipart_keys(*cache.lookup(k)->0).to_set().subset_of(universe),
{
    let d = cache.lookup(k)->0;
    assert forall|x: Seq<char>| #[trigger] multipart_keys(*d).to_set().contains(x) implies universe.contains(x) by {
        if cache.parts()@.contains_key(k) {
            lemma_shared_keys_contains(cache.parts(), k, x);
        } else {
            lemma_shared_keys_contains(cache.primitives(), k, x);
        }
        lemma_concat_contains(shared_keys(cache.parts().seq()), shared_keys(cache.primitives().seq()), x);
        assert(cache_keys(cache).contains(x));
    }
}

/// Giving one key a state that a scan may give is growing.
pub proof fn lemma_grown_insert(
    a: Map<Seq<char>, ResolutionState>,
    k: Seq<char>,
    v: ResolutionState,
    local: bool,
    cache: PartCache,
    locals: AliasMap<Arc<MultipartDocument>>,
    scope: Set<Seq<char>>,
)
    requires
        scanned_state(k, v, local, cache, locals, scope),
    ensures
        grown(a, a.insert(k, v), local, cache, locals, scope),
{
}

/// With a finite universe, a larger set leaves fewer of its elements out.
pub proof fn lemma_difference_shrinks(u: Set<Seq<char>>, small: Set<Seq<char>>, big: Set<Seq<char>>)
    requires
        u.finite(),
        small.subset_of(big),
    ensures
        u.difference(big).len() <= u.difference(small).len(),
{
    vstd::set_lib::lemma_len_subset(u.difference(big), u.difference(small));
}

/// The keys of some references that have not got a state yet: a measure that
/// every recursive step of a scan makes smaller.
pub open spec fn unresolved_measure(
    universe: Set<Seq<char>>,
    map: Map<Seq<char>, ResolutionState>,
    local_map: Map<Seq<char>, ResolutionState>,
) -> int {
    (universe.difference(map.dom()).len() + universe.difference(local_map.dom()).len()) as int
}

/// The measure of a scan: twice the number of unresolved keys, plus one
/// while the scan looks at local documents.
pub open spec fn scan_measure(
    universe: Set<Seq<char>>,
    map: Map<Seq<char>, ResolutionState>,
    local_map: Map<Seq<char>, ResolutionState>,
    local: bool,
) -> nat {
    (2 * unresolved_measure(universe, map, local_map) + if local {
        1int
    } else {
        0int
    }) as nat
}

/// The subparts of `parent` by key, none when there is no parent.
pub open spec fn parent_documents(parent: Option<&MultipartDocument>) -> Map<Seq<char>, Document> {
    match parent {
        Some(p) => p.subparts@,
        None => Map::empty(),
    }
}

/// `m` is less than `n`.
pub open spec fn below(m: nat, n: nat) -> bool {
    m < n
}

/// `mid` is `before` with the state `state` given to the key `k` in the map
/// that `local` chooses, and nothing else changed.
pub open spec fn with_state(
    before: DependencyResolver,
    mid: DependencyResolver,
    k: Seq<char>,
    local: bool,
    state: ResolutionState,
) -> bool {
    &&& mid.states(local) == before.states(local).insert(k, state)
    &&& mid.states(!local) == before.states(!local)
    &&& mid.local_cache == before.local_cache
}

/// What looking at one reference, with the key `k`, does to the resolver
/// `before`, giving `after`, when the walks it starts are at most `n` deep.
/// A key that already has a state in the map that `local` chooses changes
/// nothing. Otherwise the first of these applies:
/// - a subpart of the parent (among `subparts`) becomes `Subpart` in that
///   map, and the subpart's commands are then walked by the same rules,
///   with the same `local` and the same parent;
/// - with `local`, a document found next to the document being resolved
///   becomes `Associated` in the local map, and its body is then walked by
///   the same rules as a local document (its own subparts as the parent's);
/// - a document of the cache becomes `Associated` in the library map, and
///   its body is then walked by the same rules as a library document;
/// - else the key becomes `Pending` in the map that `local` chooses.
pub open spec fn ref_step(
    n: nat,
    before: DependencyResolver,
    after: DependencyResolver,
    k: Seq<char>,
    subparts: Map<Seq<char>, Document>,
    local: bool,
    cache: PartCache,
) -> bool {
    if before.states(local).contains_key(k) {
        after == before
    } else if subparts.contains_key(k) {
        exists|m: nat, inner: Seq<DependencyResolver>|
            #![trigger below(m, n), with_state(before, inner[0], k, local, ResolutionState::Subpart)]
            below(m, n) && walks(m, inner, subparts[k].commands@, subparts, local, cache) && with_state(
                before,
                inner[0],
                k,
                local,
                ResolutionState::Subpart,
            ) && inner.last() == after
    } else if local && before.locals()@.contains_key(k) {
        exists|m: nat, inner: Seq<DependencyResolver>|
            #![trigger below(m, n), with_state(before, inner[0], k, true, ResolutionState::Associated(before.locals()@[k]))]
            below(m, n) && walks(
                m,
                inner,
                before.locals()@[k].body.commands@,
                before.locals()@[k].subparts@,
                true,
                cache,
            ) && with_state(before, inner[0], k, true, ResolutionState::Associated(before.locals()@[k]))
                && inner.last() == after
    } else if cache.lookup(k) is Some {
        exists|m: nat, inner: Seq<DependencyResolver>|
            #![trigger below(m, n), with_state(before, inner[0], k, false, ResolutionState::Associated(cache.lookup(k)->0))]
            below(m, n) && walks(
                m,
                inner,
                cache.lookup(k)->0.body.commands@,
                cache.lookup(k)->0.subparts@,
                false,
                cache,
            ) && with_state(before, inner[0], k, false, ResolutionState::Associated(cache.lookup(k)->0))
                && inner.last() == after
    } else {
        with_state(before, after, k, local, ResolutionState::Pending)
    }
}

/// `snaps` are the resolvers before each of `commands` and after the last:
/// each part reference takes a step as [`ref_step`] says, its walks at most
/// `n` deep, and any other command changes nothing. (The body spells out
/// `ref_step` for the last command, which keeps the recursion within this
/// one function.)
pub open spec fn walks(
    n: nat,
    snaps: Seq<DependencyResolver>,
    commands: Seq<Command>,
    subparts: Map<Seq<char>, Document>,
    local: bool,
    cache: PartCache,
) -> bool
    decreases n, commands.len(),
{
    if commands.len() == 0 {
        snaps.len() == 1
    } else {
        let i = commands.len() - 1;
        let before = snaps[i];
        let after = snaps[i + 1];
        &&& snaps.len() == commands.len() + 1
        &&& walks(n, snaps.drop_last(), commands.drop_last(), subparts, local, cache)
        &&& match commands[i] {
            Command::PartReference(r) => {
                let k = r.name.key();
                if before.states(local).contains_key(k) {
                    after == before
                } else if subparts.contains_key(k) {
                    exists|m: nat, inner: Seq<DependencyResolver>|
                        #![trigger below(m, n), with_state(before, inner[0], k, local, ResolutionState::Subpart)]
                        below(m, n) && walks(m, inner, subparts[k].commands@, subparts, local, cache)
                            && with_state(before, inner[0], k, local, ResolutionState::Subpart) && inner.last()
                            == after
                } else if local && before.locals()@.contains_key(k) {
                    exists|m: nat, inner: Seq<DependencyResolver>|
                        #![trigger below(m, n), with_state(before, inner[0], k, true, ResolutionState::Associated(before.locals()@[k]))]
                        below(m, n) && walks(
                            m,
                            inner,
                            before.locals()@[k].body.commands@,
                            before.locals()@[k].subparts@,
                            true,
                            cache,
                        ) && with_state(before, inner[0], k, true, ResolutionState::Associated(before.locals()@[k]))
                            && inner.last() == after
                } else if cache.lookup(k) is Some {
                    exists|m: nat, inner: Seq<DependencyResolver>|
                        #![trigger below(m, n), with_state(before, inner[0], k, false, ResolutionState::Associated(cache.lookup(k)->0))]
                        below(m, n) && walks(
                            m,
                            inner,
                            cache.lookup(k)->0.body.commands@,
                            cache.lookup(k)->0.subparts@,
                            false,
                            cache,
                        ) && with_state(before, inner[0], k, false, ResolutionState::Associated(cache.lookup(k)->0))
                            && inner.last() == after
                } else {
                    with_state(before, after, k, local, ResolutionState::Pending)
                }
            },
            _ => after == before,
        }
    }
}

/// A walk over the first `i` commands, followed by the step that the `i`-th
/// command takes, is a walk over the first `i + 1`.
pub proof fn lemma_walks_extend(
    n: nat,
    snaps: Seq<DependencyResolver>,
    commands: Seq<Command>,
    i: int,
    next: DependencyResolver,
    subparts: Map<Seq<char>, Document>,
    local: bool,
    cache: PartCache,
)
    requires
        0 <= i < commands.len(),
        walks(n, snaps, commands.take(i), subparts, local, cache),
        commands[i] matches Command::PartReference(r) ==> ref_step(
            n,
            snaps.last(),
            next,
            r.name.key(),
            subparts,
            local,
            cache,
        ),
        !(commands[i] is PartReference) ==> next == snaps.last(),
    ensures
        walks(n, snaps.push(next), commands.take(i + 1), subparts, local, cache),
{
    let s2 = snaps.push(next);
    let c2 = commands.take(i + 1);
    if i == 0 {
        assert(commands.take(0) =~= Seq::<Command>::empty());
    }
    assert(snaps.len() == i + 1);
    assert(s2.drop_last() =~= snaps);
    assert(c2.drop_last() =~= commands.take(i));
    assert(c2[i] == commands[i]);
    assert(s2[i] == snaps.last());
    assert(s2[i + 1] == next);
    let before = snaps.last();
    if let Command::PartReference(r) = commands[i] {
        let k = r.name.key();
        if before.states(local).contains_key(k) {
        } else if subparts.contains_key(k) {
            let (m, inner) = choose|m: nat, inner: Seq<DependencyResolver>|
                #![trigger below(m, n), with_state(before, inner[0], k, local, ResolutionState::Subpart)]
                below(m, n) && walks(m, inner, subparts[k].commands@, subparts, local, cache) && with_state(
                    before,
                    inner[0],
                    k,
                    local,
                    ResolutionState::Subpart,
                ) && inner.last() == next;
            assert(walks(m, inner, subparts[k].commands@, subparts, local, cache));
            assert(below(m, n));
            assert(with_state(before, inner[0], k, local, ResolutionState::Subpart));
        } else if local && before.locals()@.contains_key(k) {
            let d = before.locals()@[k];
            let (m, inner) = choose|m: nat, inner: Seq<DependencyResolver>|
                #![trigger below(m, n), with_state(before, inner[0], k, true, ResolutionState::Associated(d))]
                below(m, n) && walks(m, inner, d.body.commands@, d.subparts@, true, cache) && with_state(
                    before,
                    inner[0],
                    k,
                    true,
                    ResolutionState::Associated(d),
                ) && inner.last() == next;
            assert(walks(m, inner, d.body.commands@, d.subparts@, true, cache));
            assert(below(m, n));
            assert(with_state(before, inner[0], k, true, ResolutionState::Associated(d)));
        } else if cache.lookup(k) is Some {
            let d = cache.lookup(k)->0;
            let (m, inner) = choose|m: nat, inner: Seq<DependencyResolver>|
                #![trigger below(m, n), with_state(before, inner[0], k, false, ResolutionState::Associated(d))]
                below(m, n) && walks(m, inner, d.body.commands@, d.subparts@, false, cache) && with_state(
                    before,
                    inner[0],
                    k,
                    false,
                    ResolutionState::Associated(d),
                ) && inner.last() == next;
            assert(walks(m, inner, d.body.commands@, d.subparts@, false, cache));
            assert(below(m, n));
            assert(with_state(before, inner[0], k, false, ResolutionState::Associated(d)));
        }
    }
    assert(walks(n, s2, c2, subparts, local, cache)) by {
        reveal_with_fuel(walks, 2);
    }
}

/// How recording a loaded `document` for the key `k` takes `before` to
/// `after`: the local state of `k` is dropped when the document came from the
/// library though it was asked for locally (`asked_local` but not
/// `kept_local`); the document's body is then walked, with its own subparts
/// as the parent's and `kept_local` as the flag; and the document then
/// becomes the state of `k` in the map that `kept_local` chooses.
pub open spec fn loaded_and_scanned(
    before: DependencyResolver,
    after: DependencyResolver,
    k: Seq<char>,
    document: MultipartDocument,
    asked_local: bool,
    kept_local: bool,
    cache: PartCache,
) -> bool {
    exists|mid: DependencyResolver, scanned_to: DependencyResolver|
        #![trigger scanned(mid, scanned_to, document.body.commands@, document.subparts@, kept_local, cache)]
        scanned(mid, scanned_to, document.body.commands@, document.subparts@, kept_local, cache)
            && mid.map@ == before.map@ && mid.local_map@ == (if asked_local && !kept_local {
            before.local_map@.remove(k)
        } else {
            before.local_map@
        }) && mid.locals() == after.locals() && with_state(
            scanned_to,
            after,
            k,
            kept_local,
            after.states(kept_local)[k],
        )
}

/// Walking `commands` in order, by the rules of [`ref_step`] (to some depth),
/// takes `before` to `after`.
pub open spec fn scanned(
    before: DependencyResolver,
    after: DependencyResolver,
    commands: Seq<Command>,
    subparts: Map<Seq<char>, Document>,
    local: bool,
    cache: PartCache,
) -> bool {
    exists|n: nat, snaps: Seq<DependencyResolver>|
        #[trigger] walks(n, snaps, commands, subparts, local, cache) && snaps[0] == before && snaps.last() == after
}

/// Walking `commands` in order, each step at most `n` deep, takes `before`
/// to `after`.
pub open spec fn walked_within(
    n: nat,
    before: DependencyResolver,
    after: DependencyResolver,
    commands: Seq<Command>,
    subparts: Map<Seq<char>, Document>,
    local: bool,
    cache: PartCache,
) -> bool {
    exists|snaps: Seq<DependencyResolver>|
        #[trigger] walks(n, snaps, commands, subparts, local, cache) && snaps[0] == before && snaps.last() == after
}

/// A step that fits within a depth fits within any greater one.
pub proof fn lemma_ref_step_deeper(
    n: nat,
    n2: nat,
    before: DependencyResolver,
    after: DependencyResolver,
    k: Seq<char>,
    subparts: Map<Seq<char>, Document>,
    local: bool,
    cache: PartCache,
)
    requires
        ref_step(n, before, after, k, subparts, local, cache),
        n <= n2,
    ensures
        ref_step(n2, before, after, k, subparts, local, cache),
{
    if before.states(local).contains_key(k) {
    } else if subparts.contains_key(k) {
        let (m, inner) = choose|m: nat, inner: Seq<DependencyResolver>|
            #![trigger below(m, n), with_state(before, inner[0], k, local, ResolutionState::Subpart)]
            below(m, n) && walks(m, inner, subparts[k].commands@, subparts, local, cache) && with_state(
                before,
                inner[0],
                k,
                local,
                ResolutionState::Subpart,
            ) && inner.last() == after;
        assert(below(m, n2));
    } else if local && before.locals()@.contains_key(k) {
        let d = before.locals()@[k];
        let (m, inner) = choose|m: nat, inner: Seq<DependencyResolver>|
            #![trigger below(m, n), with_state(before, inner[0], k, true, ResolutionState::Associated(d))]
            below(m, n) && walks(m, inner, d.body.commands@, d.subparts@, true, cache) && with_state(
                before,
                inner[0],
                k,
                true,
                ResolutionState::Associated(d),
            ) && inner.last() == after;
        assert(below(m, n2));
    } else if cache.lookup(k) is Some {
        let d = cache.lookup(k)->0;
        let (m, inner) = choose|m: nat, inner: Seq<DependencyResolver>|
            #![trigger below(m, n), with_state(before, inner[0], k, false, ResolutionState::Associated(d))]
            below(m, n) && walks(m, inner, d.body.commands@, d.subparts@, false, cache) && with_state(
                before,
                inner[0],
                k,
                false,
                ResolutionState::Associated(d),
            ) && inner.last() == after;
        assert(below(m, n2));
    }
}

/// Every state of `before` is still in `after`: unchanged in the local map,
/// and unchanged in the library map too, except that a scan of local
/// references (`local`) may give a key of the library map the document that
/// the cache holds for it.
pub open spec fn kept(before: DependencyResolver, after: DependencyResolver, local: bool, cache: PartCache) -> bool {
    &&& forall|k: Seq<char>| #[trigger] before.local_map@.contains_key(k) ==> after.local_map@.contains_key(k)
        && after.local_map@[k] == before.local_map@[k]
    &&& forall|k: Seq<char>| #[trigger] before.map@.contains_key(k) ==> after.map@.contains_key(k) && (after.map@[k]
        == before.map@[k] || (local && cache.lookup(k) is Some && after.map@[k] == ResolutionState::Associated(
        cache.lookup(k)->0,
    )))
}

/// Keeping twice is keeping.
pub proof fn lemma_kept_trans(
    a: DependencyResolver,
    b: DependencyResolver,
    c: DependencyResolver,
    local: bool,
    cache: PartCache,
)
    requires
        kept(a, b, local, cache),
        kept(b, c, local, cache),
    ensures
        kept(a, c, local, cache),
{
    assert forall|k: Seq<char>| #[trigger] a.local_map@.contains_key(k) implies c.local_map@.contains_key(k)
        && c.local_map@[k] == a.local_map@[k] by {
        assert(b.local_map@.contains_key(k));
    }
    assert forall|k: Seq<char>| #[trigger] a.map@.contains_key(k) implies c.map@.contains_key(k) && (c.map@[k]
        == a.map@[k] || (local && cache.lookup(k) is Some && c.map@[k] == ResolutionState::Associated(
        cache.lookup(k)->0,
    ))) by {
        assert(b.map@.contains_key(k));
    }
}

/// What a scan of library references keeps, a scan of local references
/// keeps too.
pub proof fn lemma_kept_local(a: DependencyResolver, b: DependencyResolver, cache: PartCache)
    requires
        kept(a, b, false, cache),
    ensures
        kept(a, b, true, cache),
{
}

/// Every resolver keeps its own states.
pub proof fn lemma_kept_refl(a: DependencyResolver, local: bool, cache: PartCache)
    ensures
        kept(a, a, local, cache),
{
}

/// The keys of the part references of pending entries, in order, each with
/// the given flag.
pub open spec fn pending_entries(s: Seq<(PartAlias, ResolutionState)>, local: bool) -> Seq<(PartAlias, bool)>
    decreases s.len(),
{
    if s.len() == 0 {
        Seq::empty()
    } else {
        pending_entries(s.drop_last(), local) + match s.last().1 {
            ResolutionState::Pending => seq![(s.last().0, local)],
            _ => Seq::empty(),
        }
    }
}

/// Tracks, for each referenced part, what is known of it while the
/// dependencies of a document are resolved: once in the map of library
/// parts and once in the map of parts found next to the document.
#[derive(Debug)]
pub struct DependencyResolver {
    /// Documents found next to the document being resolved.
    pub local_cache: TransientDocumentCache,
    /// States of library parts.
    pub map: AliasMap<ResolutionState>,
    /// States of parts found next to the document.
    pub local_map: AliasMap<ResolutionState>,
}

impl DependencyResolver {
    /// The documents found next to the document being resolved.
    pub open spec fn locals(self) -> AliasMap<Arc<MultipartDocument>> {
        self.local_cache.documents()
    }

    /// The state map that `local` chooses.
    pub open spec fn states(self, local: bool) -> Map<Seq<char>, ResolutionState> {
        if local {
            self.local_map@
        } else {
            self.map@
        }
    }

    /// The key `k` has a state: with `local`, in either map; without it, in
    /// the library map.
    pub open spec fn covered(self, k: Seq<char>, local: bool) -> bool {
        if local {
            self.local_map@.contains_key(k) || self.map@.contains_key(k)
        } else {
            self.map@.contains_key(k)
        }
    }

    /// A resolver that knows nothing yet.
    pub fn new() -> (r: Self)
        ensures
            r.map@ == Map::<Seq<char>, ResolutionState>::empty(),
            r.local_map@ == Map::<Seq<char>, ResolutionState>::empty(),
            r.locals()@ == Map::<Seq<char>, Arc<MultipartDocument>>::empty(),
    {
        DependencyResolver {
            local_cache: TransientDocumentCache::new(),
            map: AliasMap::new(),
            local_map: AliasMap::new(),
        }
    }

    /// `alias` has a state in the map that `local` chooses.
    pub fn contains_state(&self, alias: &PartAlias, local: bool) -> (r: bool)
        ensures
            r == self.states(local).contains_key(alias.key()),
    {
        if local {
            self.local_map.contains_key(alias)
        } else {
            self.map.contains_key(alias)
        }
    }

    /// Sets the state of `alias` in the map that `local` chooses.
    pub fn put_state(&mut self, alias: PartAlias, local: bool, state: ResolutionState)
        ensures
            final(self).states(local) == old(self).states(local).insert(alias.key(), state),
            final(self).states(!local) == old(self).states(!local),
            local ==> final(self).map == old(self).map,
            !local ==> final(self).local_map == old(self).local_map,
            final(self).local_cache == old(self).local_cache,
    {
        if local {
            self.local_map.insert(alias, state);
        } else {
            self.map.insert(alias, state);
        }
    }

    /// Forgets the state of `alias` in the map that `local` chooses.
    pub fn clear_state(&mut self, alias: &PartAlias, local: bool)
        ensures
            final(self).states(local) == old(self).states(local).remove(alias.key()),
            final(self).states(!local) == old(self).states(!local),
            local ==> final(self).map == old(self).map,
            !local ==> final(self).local_map == old(self).local_map,
            final(self).local_cache == old(self).local_cache,
    {
        if local {
            self.local_map.remove(alias);
        } else {
            self.map.remove(alias);
        }
    }

    /// Gives the reference `alias` of a document under `parent` a state if it
    /// has none yet: a subpart of `parent`, a document found next to the
    /// document (with `local`) or in the cache, whose own references are then
    /// walked in turn, or pending.
    fn scan_reference(
        &mut self,
        cache: &PartCache,
        alias: &PartAlias,
        parent: Option<&MultipartDocument>,
        local: bool,
        Ghost(universe): Ghost<Set<Seq<char>>>,
        Ghost(scope): Ghost<Set<Seq<char>>>,
        Ghost(budget): Ghost<nat>,
    )
        requires
            budget == scan_measure(universe, old(self).map@, old(self).local_map@, local),
            universe.finite(),
            universe.contains(alias.key()),
            parent matches Some(p) ==> multipart_keys(*p).to_set().subset_of(universe),
            cache_keys(*cache).to_set().subset_of(universe),
            shared_keys(old(self).locals().seq()).to_set().subset_of(universe),
            parent matches Some(p) ==> p.subparts@.dom().subset_of(scope),
            shared_subparts(cache.parts()).subset_of(scope),
            shared_subparts(cache.primitives()).subset_of(scope),
            shared_subparts(old(self).locals()).subset_of(scope),
        ensures
            final(self).locals() == old(self).locals(),
            grown(old(self).map@, final(self).map@, false, *cache, old(self).locals(), scope),
            grown(old(self).local_map@, final(self).local_map@, true, *cache, old(self).locals(), scope),
            !local ==> final(self).local_map == old(self).local_map,
            final(self).covered(alias.key(), local),
            ref_step(budget + 1, *old(self), *final(self), alias.key(), parent_documents(parent), local, *cache),
            kept(*old(self), *final(self), local, *cache),
            followed(old(self).map@, final(self).map@, *final(self), false),
            followed(old(self).local_map@, final(self).local_map@, *final(self), true),
            forall|x: Seq<char>| #[trigger] final(self).map@.contains_key(x) ==> old(self).map@.contains_key(x)
                || universe.contains(x),
            forall|x: Seq<char>| #[trigger] final(self).local_map@.contains_key(x) ==> old(self).local_map@.contains_key(x)
                || universe.contains(x),
        decreases budget, 0int,
    {
        let ghost start = *self;
        let ghost locals = self.locals();
        let ghost k = alias.key();
        proof {
            use_type_invariant(&cache.parts);
            use_type_invariant(&cache.primitives);
            use_type_invariant(&self.local_cache.documents);
            lemma_grown_refl(start.map@, false, *cache, locals, scope);
            lemma_grown_refl(start.local_map@, true, *cache, locals, scope);
            lemma_kept_refl(start, local, *cache);
        }
        if self.contains_state(alias, local) {
            return;
        }
        if let Some(p) = parent {
            if p.subparts.contains_key(alias) {
                self.put_state(alias.clone(), local, ResolutionState::Subpart);
                proof {
                    lemma_grown_insert(start.states(local), k, ResolutionState::Subpart, local, *cache, locals, scope);
                    if local {
                        universe.lemma_set_insert_diff_decreases(start.local_map@.dom(), k);
                        assert(self.local_map@.dom() =~= start.local_map@.dom().insert(k));
                    } else {
                        universe.lemma_set_insert_diff_decreases(start.map@.dom(), k);
                        assert(self.map@.dom() =~= start.map@.dom().insert(k));
                    }
                    use_type_invariant(&p.subparts);
                }
                let subpart = p.subparts.get(alias).unwrap();
                proof {
                    assert forall|x: Seq<char>| #[trigger] document_keys(*subpart).to_set().contains(x)
                        implies universe.contains(x) by {
                        lemma_subpart_keys(*p, k, x);
                    }
                }
                let ghost mid = *self;
                let ghost inner = scan_measure(universe, self.map@, self.local_map@, local);
                proof {
                    assert(kept(start, mid, local, *cache));
                    assert(with_state(start, mid, k, local, ResolutionState::Subpart));
                    assert(inner < budget);
                }
                self.scan_commands(
                    cache,
                    subpart,
                    Some(p),
                    local,
                    Ghost(universe),
                    Ghost(scope),
                    Ghost(scan_measure(universe, self.map@, self.local_map@, local)),
                );
                proof {
                    lemma_grown_trans(start.map@, mid.map@, self.map@, false, *cache, locals, scope);
                    lemma_grown_trans(start.local_map@, mid.local_map@, self.local_map@, true, *cache, locals, scope);
                    if local {
                        lemma_followed_insert(start.local_map@, self.local_map@, *self, k, ResolutionState::Subpart, true);
                        assert(mid.local_map@.contains_key(k));
                    } else {
                        lemma_followed_insert(start.map@, self.map@, *self, k, ResolutionState::Subpart, false);
                        assert(mid.map@.contains_key(k));
                    }
                    lemma_kept_trans(start, mid, *self, local, *cache);
                    assert(walked_within(inner + 1, mid, *self, subpart.commands@, p.subparts@, local, *cache));
                    let snaps = choose|snaps: Seq<DependencyResolver>|
                        #[trigger] walks(inner + 1, snaps, subpart.commands@, p.subparts@, local, *cache) && snaps[0]
                            == mid && snaps.last() == *self;
                    assert(walks((inner + 1) as nat, snaps, p.subparts@[k].commands@, p.subparts@, local, *cache));
                    assert(below((inner + 1) as nat, (budget + 1) as nat));
                    assert(with_state(start, snaps[0], k, local, ResolutionState::Subpart));
                }
                return;
            }
        }
        if local {
            if let Some(cached) = self.local_cache.query(alias) {
                let ghost d = cached;
                self.put_state(alias.clone(), true, ResolutionState::Associated(share(&cached)));
                proof {
                    lemma_grown_insert(start.local_map@, k, ResolutionState::Associated(d), true, *cache, locals, scope);
                    universe.lemma_set_insert_diff_decreases(start.local_map@.dom(), k);
                    assert(self.local_map@.dom() =~= start.local_map@.dom().insert(k));
                    assert forall|x: Seq<char>| #[trigger] multipart_keys(*cached).to_set().contains(x)
                        implies universe.contains(x) by {
                        lemma_shared_keys_contains(locals, k, x);
                    }
                    lemma_shared_subparts(locals, k);
                    lemma_body_keys(d, universe);
                }
                let ghost mid = *self;
                let ghost inner = scan_measure(universe, self.map@, self.local_map@, true);
                proof {
                    assert(kept(start, mid, true, *cache));
                    assert(with_state(start, mid, k, true, ResolutionState::Associated(locals@[k])));
                    assert(inner < budget);
                }
                let shared: &MultipartDocument = &*cached;
                self.scan_commands(
                    cache,
                    &shared.body,
                    Some(shared),
                    true,
                    Ghost(universe),
                    Ghost(scope),
                    Ghost(scan_measure(universe, self.map@, self.local_map@, true)),
                );
                proof {
                    lemma_grown_trans(start.map@, mid.map@, self.map@, false, *cache, locals, scope);
                    lemma_grown_trans(start.local_map@, mid.local_map@, self.local_map@, true, *cache, locals, scope);
                    lemma_followed_insert(
                        start.local_map@,
                        self.local_map@,
                        *self,
                        k,
                        ResolutionState::Associated(d),
                        true,
                    );
                    assert(mid.local_map@.contains_key(k));
                    lemma_kept_trans(start, mid, *self, true, *cache);
                    assert(walked_within(inner + 1, mid, *self, d.body.commands@, d.subparts@, true, *cache));
                    let snaps = choose|snaps: Seq<DependencyResolver>|
                        #[trigger] walks(inner + 1, snaps, d.body.commands@, d.subparts@, true, *cache) && snaps[0]
                            == mid && snaps.last() == *self;
                    assert(walks((inner + 1) as nat, snaps, d.body.commands@, d.subparts@, true, *cache));
                    assert(below((inner + 1) as nat, (budget + 1) as nat));
                    assert(with_state(start, snaps[0], k, true, ResolutionState::Associated(start.locals()@[k])));
                }
                return;
            }
        }
        match cache.query(alias) {
            Some(cached) => {
                let ghost d = cached;
                self.put_state(alias.clone(), false, ResolutionState::Associated(share(&cached)));
                proof {
                    lemma_grown_insert(start.map@, k, ResolutionState::Associated(d), false, *cache, locals, scope);
                    assert(self.map@.dom() =~= start.map@.dom().insert(k));
                    lemma_difference_shrinks(universe, start.map@.dom(), self.map@.dom());
                    if !local {
                        universe.lemma_set_insert_diff_decreases(start.map@.dom(), k);
                    }
                    lemma_cached_keys(*cache, k, universe);
                    if cache.parts()@.contains_key(k) {
                        lemma_shared_subparts(cache.parts(), k);
                    } else {
                        lemma_shared_subparts(cache.primitives(), k);
                    }
                    lemma_body_keys(d, universe);
                }
                let ghost mid = *self;
                proof {
                    assert forall|x: Seq<char>| #[trigger] start.map@.contains_key(x) implies mid.map@.contains_key(x)
                        && (mid.map@[x] == start.map@[x] || (local && cache.lookup(x) is Some && mid.map@[x]
                        == ResolutionState::Associated(cache.lookup(x)->0))) by {
                        if x != k {
                            assert(mid.map@[x] == start.map@[x]);
                        }
                    }
                    assert(kept(start, mid, local, *cache));
                    assert(with_state(start, mid, k, false, ResolutionState::Associated(d)));
                }
                let ghost inner = scan_measure(universe, self.map@, self.local_map@, false);
                proof {
                    assert(inner < budget);
                }
                let shared: &MultipartDocument = &*cached;
                self.scan_commands(
                    cache,
                    &shared.body,
                    Some(shared),
                    false,
                    Ghost(universe),
                    Ghost(scope),
                    Ghost(scan_measure(universe, self.map@, self.local_map@, false)),
                );
                proof {
                    lemma_grown_trans(start.map@, mid.map@, self.map@, false, *cache, locals, scope);
                    lemma_grown_trans(start.local_map@, mid.local_map@, self.local_map@, true, *cache, locals, scope);
                    lemma_followed_insert(start.map@, self.map@, *self, k, ResolutionState::Associated(d), false);
                    assert(mid.map@.contains_key(k));
                    assert(self.map@[k] == mid.map@[k]);
                    lemma_kept_local(mid, *self, *cache);
                    if local {
                        lemma_kept_trans(start, mid, *self, true, *cache);
                    } else {
                        lemma_kept_trans(start, mid, *self, false, *cache);
                    }
                    assert(walked_within(inner + 1, mid, *self, d.body.commands@, d.subparts@, false, *cache));
                    let snaps = choose|snaps: Seq<DependencyResolver>|
                        #[trigger] walks(inner + 1, snaps, d.body.commands@, d.subparts@, false, *cache) && snaps[0]
                            == mid && snaps.last() == *self;
                    assert(walks((inner + 1) as nat, snaps, d.body.commands@, d.subparts@, false, *cache));
                    assert(below((inner + 1) as nat, (budget + 1) as nat));
                    assert(with_state(start, snaps[0], k, false, ResolutionState::Associated(cache.lookup(k)->0)));
                }
            },
            None => {
                self.put_state(alias.clone(), local, ResolutionState::Pending);
                proof {
                    lemma_grown_insert(start.states(local), k, ResolutionState::Pending, local, *cache, locals, scope);
                    if local {
                        lemma_followed_insert(start.local_map@, self.local_map@, *self, k, ResolutionState::Pending, true);
                    } else {
                        lemma_followed_insert(start.map@, self.map@, *self, k, ResolutionState::Pending, false);
                    }
                    assert(kept(start, *self, local, *cache));
                }
            },
        }
    }

    /// Gives every part reference of `document` a state, as
    /// [`Self::scan_reference`] does for one.
    fn scan_commands(
        &mut self,
        cache: &PartCache,
        document: &Document,
        parent: Option<&MultipartDocument>,
        local: bool,
        Ghost(universe): Ghost<Set<Seq<char>>>,
        Ghost(scope): Ghost<Set<Seq<char>>>,
        Ghost(budget): Ghost<nat>,
    )
        requires
            budget == scan_measure(universe, old(self).map@, old(self).local_map@, local),
            universe.finite(),
            document_keys(*document).to_set().subset_of(universe),
            parent matches Some(p) ==> multipart_keys(*p).to_set().subset_of(universe),
            cache_keys(*cache).to_set().subset_of(universe),
            shared_keys(old(self).locals().seq()).to_set().subset_of(universe),
            parent matches Some(p) ==> p.subparts@.dom().subset_of(scope),
            shared_subparts(cache.parts()).subset_of(scope),
            shared_subparts(cache.primitives()).subset_of(scope),
            shared_subparts(old(self).locals()).subset_of(scope),
        ensures
            final(self).locals() == old(self).locals(),
            grown(old(self).map@, final(self).map@, false, *cache, old(self).locals(), scope),
            grown(old(self).local_map@, final(self).local_map@, true, *cache, old(self).locals(), scope),
            !local ==> final(self).local_map == old(self).local_map,
            forall|i: int|
                0 <= i < document.commands@.len() && #[trigger] document.commands@[i] is PartReference
                    ==> final(self).covered(document.commands@[i]->PartReference_0.name.key(), local),
            followed(old(self).map@, final(self).map@, *final(self), false),
            followed(old(self).local_map@, final(self).local_map@, *final(self), true),
            forall|x: Seq<char>| #[trigger] final(self).map@.contains_key(x) ==> old(self).map@.contains_key(x)
                || universe.contains(x),
            forall|x: Seq<char>| #[trigger] final(self).local_map@.contains_key(x) ==> old(self).local_map@.contains_key(x)
                || universe.contains(x),
            walked_within(budget + 1, *old(self), *final(self), document.commands@, parent_documents(parent), local, *cache),
            scanned(*old(self), *final(self), document.commands@, parent_documents(parent), local, *cache),
            kept(*old(self), *final(self), local, *cache),
        decreases budget, 1int,
    {
        let ghost start = *self;
        let ghost locals = self.locals();
        proof {
            lemma_grown_refl(start.map@, false, *cache, locals, scope);
            lemma_grown_refl(start.local_map@, true, *cache, locals, scope);
            lemma_kept_refl(start, local, *cache);
        }
        let ghost mut snaps: Seq<DependencyResolver> = seq![start];
        proof {
            assert(document.commands@.take(0) =~= Seq::<Command>::empty());
        }
        let n = document.commands.len();
        let mut i: usize = 0;
        while i < n
            invariant
                n == document.commands@.len(),
                i <= n,
                budget == scan_measure(universe, start.map@, start.local_map@, local),
                universe.finite(),
                document_keys(*document).to_set().subset_of(universe),
                parent matches Some(p) ==> multipart_keys(*p).to_set().subset_of(universe),
                cache_keys(*cache).to_set().subset_of(universe),
                shared_keys(locals.seq()).to_set().subset_of(universe),
                parent matches Some(p) ==> p.subparts@.dom().subset_of(scope),
                shared_subparts(cache.parts()).subset_of(scope),
                shared_subparts(cache.primitives()).subset_of(scope),
                shared_subparts(locals).subset_of(scope),
                self.locals() == locals,
                grown(start.map@, self.map@, false, *cache, locals, scope),
                grown(start.local_map@, self.local_map@, true, *cache, locals, scope),
                followed(start.map@, self.map@, *self, false),
                followed(start.local_map@, self.local_map@, *self, true),
                forall|x: Seq<char>| #[trigger] self.map@.contains_key(x) ==> start.map@.contains_key(x)
                    || universe.contains(x),
                forall|x: Seq<char>| #[trigger] self.local_map@.contains_key(x) ==> start.local_map@.contains_key(x)
                    || universe.contains(x),
                !local ==> self.local_map == start.local_map,
                forall|j: int|
                    0 <= j < i && #[trigger] document.commands@[j] is PartReference ==> self.covered(
                        document.commands@[j]->PartReference_0.name.key(),
                        local,
                    ),
                snaps.len() == i + 1,
                snaps[0] == start,
                snaps[i as int] == *self,
                walks((budget + 1) as nat, snaps, document.commands@.take(i as int), parent_documents(parent), local, *cache),
                kept(start, *self, local, *cache),
            decreases n - i,
        {
            let ghost previous = *self;
            if let Command::PartReference(reference) = &document.commands[i] {
                let ghost before = *self;
                let ghost inner = scan_measure(universe, self.map@, self.local_map@, local);
                proof {
                    lemma_command_keys_contains(document.commands@, i as int);
                    lemma_difference_shrinks(universe, start.map@.dom(), self.map@.dom());
                    lemma_difference_shrinks(universe, start.local_map@.dom(), self.local_map@.dom());
                }
                self.scan_reference(
                    cache,
                    &reference.name,
                    parent,
                    local,
                    Ghost(universe),
                    Ghost(scope),
                    Ghost(scan_measure(universe, self.map@, self.local_map@, local)),
                );
                proof {
                    lemma_grown_trans(start.map@, before.map@, self.map@, false, *cache, locals, scope);
                    lemma_grown_trans(start.local_map@, before.local_map@, self.local_map@, true, *cache, locals, scope);
                    lemma_followed_trans(start.map@, before.map@, self.map@, before, *self, false);
                    lemma_followed_trans(start.local_map@, before.local_map@, self.local_map@, before, *self, true);
                    assert forall|j: int|
                        0 <= j < i + 1 && #[trigger] document.commands@[j] is PartReference implies self.covered(
                            document.commands@[j]->PartReference_0.name.key(),
                            local,
                        ) by {
                        if j < i {
                            assert(before.covered(document.commands@[j]->PartReference_0.name.key(), local));
                        }
                    }
                    lemma_kept_trans(start, before, *self, local, *cache);
                    assert(inner <= budget);
                    lemma_ref_step_deeper(
                        (inner + 1) as nat,
                        (budget + 1) as nat,
                        before,
                        *self,
                        reference.name.key(),
                        parent_documents(parent),
                        local,
                        *cache,
                    );
                }
            }
            proof {
                let old_snaps = snaps;
                snaps = snaps.push(*self);
                assert(snaps.drop_last() =~= old_snaps);
                assert(document.commands@.take(i + 1).drop_last() =~= document.commands@.take(i as int));
                assert(document.commands@.take(i + 1)[i as int] == document.commands@[i as int]);
                assert(snaps[i as int] == previous);
                lemma_walks_extend(
                    (budget + 1) as nat,
                    old_snaps,
                    document.commands@,
                    i as int,
                    *self,
                    parent_documents(parent),
                    local,
                    *cache,
                );
                assert(walks(
                    (budget + 1) as nat,
                    snaps,
                    document.commands@.take(i + 1),
                    parent_documents(parent),
                    local,
                    *cache,
                ));
            }
            i = i + 1;
        }
        proof {
            assert(document.commands@.take(n as int) =~= document.commands@);
            assert(walks((budget + 1) as nat, snaps, document.commands@, parent_documents(parent), local, *cache));
        }
    }

    /// The universe of keys that scanning `document` (a part of `parent`,
    /// if given) may give states to.
    pub open spec fn scan_universe(
        self,
        cache: PartCache,
        document: Document,
        parent: Option<&MultipartDocument>,
    ) -> Set<Seq<char>> {
        (document_keys(document) + match parent {
            Some(p) => multipart_keys(*p),
            None => Seq::empty(),
        } + cache_keys(cache) + shared_keys(self.locals().seq())).to_set()
    }

    /// Scans `document`, a part of `parent` if given, with the universe of
    /// keys that it can reach.
    fn scan_document(
        &mut self,
        cache: &PartCache,
        document: &Document,
        parent: Option<&MultipartDocument>,
        local: bool,
    )
        requires
            parent matches Some(p) ==> document_keys(*document).to_set().subset_of(
                multipart_keys(*p).to_set(),
            ),
        ensures
            forall|x: Seq<char>| #[trigger] final(self).map@.contains_key(x) ==> old(self).map@.contains_key(x)
                || old(self).scan_universe(*cache, *document, parent).contains(x),
            forall|x: Seq<char>| #[trigger] final(self).local_map@.contains_key(x) ==> old(self).local_map@.contains_key(x)
                || old(self).scan_universe(*cache, *document, parent).contains(x),
            final(self).locals() == old(self).locals(),
            grown(old(self).map@, final(self).map@, false, *cache, old(self).locals(), subpart_scope(parent_subparts(parent), *cache, old(self).locals())),
            grown(old(self).local_map@, final(self).local_map@, true, *cache, old(self).locals(), subpart_scope(parent_subparts(parent), *cache, old(self).locals())),
            !local ==> final(self).local_map == old(self).local_map,
            forall|i: int|
                0 <= i < document.commands@.len() && #[trigger] document.commands@[i] is PartReference
                    ==> final(self).covered(document.commands@[i]->PartReference_0.name.key(), local),
            followed(old(self).map@, final(self).map@, *final(self), false),
            followed(old(self).local_map@, final(self).local_map@, *final(self), true),
            scanned(*old(self), *final(self), document.commands@, parent_documents(parent), local, *cache),
            kept(*old(self), *final(self), local, *cache),
    {
        let ghost a = document_keys(*document);
        let ghost b = match parent {
            Some(p) => multipart_keys(*p),
            None => Seq::<Seq<char>>::empty(),
        };
        let ghost c = cache_keys(*cache);
        let ghost l = shared_keys(self.locals().seq());
        let ghost universe = (a + b + c + l).to_set();
        let ghost scope = subpart_scope(parent_subparts(parent), *cache, self.locals());
        proof {
            vstd::seq_lib::seq_to_set_is_finite(a + b + c + l);
            assert forall|x: Seq<char>| #[trigger] a.to_set().contains(x) implies universe.contains(x) by {
                lemma_concat_contains(a, b, x);
                lemma_concat_contains(a + b, c, x);
                lemma_concat_contains(a + b + c, l, x);
            }
            assert forall|x: Seq<char>| #[trigger] b.to_set().contains(x) implies universe.contains(x) by {
                lemma_concat_contains(a, b, x);
                lemma_concat_contains(a + b, c, x);
                lemma_concat_contains(a + b + c, l, x);
            }
            assert forall|x: Seq<char>| #[trigger] c.to_set().contains(x) implies universe.contains(x) by {
                lemma_concat_contains(a + b, c, x);
                lemma_concat_contains(a + b + c, l, x);
            }
            assert forall|x: Seq<char>| #[trigger] l.to_set().contains(x) implies universe.contains(x) by {
                lemma_concat_contains(a + b + c, l, x);
            }
        }
        self.scan_commands(
            cache,
            document,
            parent,
            local,
            Ghost(universe),
            Ghost(scope),
            Ghost(scan_measure(universe, self.map@, self.local_map@, local)),
        );
    }

    /// Gives every part reference of `document` that has no state yet a
    /// state, walking in turn the references of the documents found for them
    /// in the caches.
    pub fn scan_dependencies(&mut self, cache: &PartCache, document: &Document, local: bool)
        ensures
            forall|x: Seq<char>| #[trigger] final(self).map@.contains_key(x) ==> old(self).map@.contains_key(x)
                || old(self).scan_universe(*cache, *document, None).contains(x),
            forall|x: Seq<char>| #[trigger] final(self).local_map@.contains_key(x) ==> old(self).local_map@.contains_key(x)
                || old(self).scan_universe(*cache, *document, None).contains(x),
            final(self).locals() == old(self).locals(),
            grown(old(self).map@, final(self).map@, false, *cache, old(self).locals(), subpart_scope(Set::empty(), *cache, old(self).locals())),
            grown(old(self).local_map@, final(self).local_map@, true, *cache, old(self).locals(), subpart_scope(Set::empty(), *cache, old(self).locals())),
            !local ==> final(self).local_map == old(self).local_map,
            forall|i: int|
                0 <= i < document.commands@.len() && #[trigger] document.commands@[i] is PartReference
                    ==> final(self).covered(document.commands@[i]->PartReference_0.name.key(), local),
            followed(old(self).map@, final(self).map@, *final(self), false),
            followed(old(self).local_map@, final(self).local_map@, *final(self), true),
            scanned(*old(self), *final(self), document.commands@, Map::empty(), local, *cache),
            kept(*old(self), *final(self), local, *cache),
    {
        self.scan_document(cache, document, None, local);
    }

    /// Gives every part reference of a document that has no state yet a
    /// state: of the body of `parent` when `alias` is `None`, else of the
    /// subpart of `parent` that `alias` names (nothing happens when there is
    /// no such subpart). References to other subparts of `parent` become
    /// subparts and are walked in turn, as are the documents found for
    /// references in the caches.
    pub fn scan_dependencies_with_parent(
        &mut self,
        cache: &PartCache,
        alias: Option<&PartAlias>,
        parent: &MultipartDocument,
        local: bool,
    )
        ensures
            alias is None ==> forall|x: Seq<char>| #[trigger] final(self).map@.contains_key(x) ==> old(
                self,
            ).map@.contains_key(x) || old(self).scan_universe(*cache, parent.body, Some(parent)).contains(x),
            alias is None ==> forall|x: Seq<char>| #[trigger] final(self).local_map@.contains_key(x) ==> old(
                self,
            ).local_map@.contains_key(x) || old(self).scan_universe(*cache, parent.body, Some(parent)).contains(x),
            alias matches Some(e) ==> (parent.subparts@.contains_key(e.key()) ==> forall|x: Seq<char>|
                #[trigger] final(self).map@.contains_key(x) ==> old(self).map@.contains_key(x) || old(
                self,
            ).scan_universe(*cache, parent.subparts@[e.key()], Some(parent)).contains(x)),
            alias matches Some(e) ==> (parent.subparts@.contains_key(e.key()) ==> forall|x: Seq<char>|
                #[trigger] final(self).local_map@.contains_key(x) ==> old(self).local_map@.contains_key(x) || old(
                self,
            ).scan_universe(*cache, parent.subparts@[e.key()], Some(parent)).contains(x)),
            final(self).locals() == old(self).locals(),
            grown(old(self).map@, final(self).map@, false, *cache, old(self).locals(), subpart_scope(parent.subparts@.dom(), *cache, old(self).locals())),
            grown(old(self).local_map@, final(self).local_map@, true, *cache, old(self).locals(), subpart_scope(parent.subparts@.dom(), *cache, old(self).locals())),
            !local ==> final(self).local_map == old(self).local_map,
            alias is None ==> forall|i: int|
                0 <= i < parent.body.commands@.len() && #[trigger] parent.body.commands@[i] is PartReference
                    ==> final(self).covered(parent.body.commands@[i]->PartReference_0.name.key(), local),
            alias matches Some(e) ==> (parent.subparts@.contains_key(e.key()) ==> forall|i: int|
                0 <= i < parent.subparts@[e.key()].commands@.len()
                    && #[trigger] parent.subparts@[e.key()].commands@[i] is PartReference
                    ==> final(self).covered(
                    parent.subparts@[e.key()].commands@[i]->PartReference_0.name.key(),
                    local,
                )),
            alias matches Some(e) ==> (!parent.subparts@.contains_key(e.key()) ==> *final(self)
                == *old(self)),
            followed(old(self).map@, final(self).map@, *final(self), false),
            followed(old(self).local_map@, final(self).local_map@, *final(self), true),
            alias is None ==> scanned(*old(self), *final(self), parent.body.commands@, parent.subparts@, local, *cache),
            alias matches Some(e) ==> (parent.subparts@.contains_key(e.key()) ==> scanned(
                *old(self),
                *final(self),
                parent.subparts@[e.key()].commands@,
                parent.subparts@,
                local,
                *cache,
            )),
            kept(*old(self), *final(self), local, *cache),
    {
        proof {
            use_type_invariant(&parent.subparts);
        }
        match alias {
            Some(e) => match parent.subparts.get(e) {
                Some(document) => {
                    proof {
                        assert forall|x: Seq<char>| #[trigger] document_keys(*document).to_set().contains(x)
                            implies multipart_keys(*parent).to_set().contains(x) by {
                            lemma_subpart_keys(*parent, e.key(), x);
                        }
                    }
                    self.scan_document(cache, document, Some(parent), local);
                },
                None => {
                    proof {
                        lemma_grown_refl(
                            self.map@,
                            false,
                            *cache,
                            self.locals(),
                            subpart_scope(parent.subparts@.dom(), *cache, self.locals()),
                        );
                        lemma_grown_refl(
                            self.local_map@,
                            true,
                            *cache,
                            self.locals(),
                            subpart_scope(parent.subparts@.dom(), *cache, self.locals()),
                        );
                        lemma_kept_refl(*self, local, *cache);
                    }
                },
            },
            None => {
                proof {
                    assert forall|x: Seq<char>| #[trigger] document_keys(parent.body).to_set().contains(x)
                        implies multipart_keys(*parent).to_set().contains(x) by {
                        lemma_concat_contains(
                            document_keys(parent.body),
                            gather(parent.subparts.seq(), |e: (PartAlias, Document)| document_keys(e.1)),
                            x,
                        );
                    }
                }
                self.scan_document(cache, &parent.body, Some(parent), local);
            },
        }
    }

    /// The references still to be loaded: first those of the local map
    /// (flagged `true`), then those of the library map (flagged `false`).
    pub fn pending_dependencies(&self) -> (r: Vec<(PartAlias, bool)>)
        ensures
            r@ == pending_entries(self.local_map.seq(), true) + pending_entries(self.map.seq(), false),
    {
        let mut result: Vec<(PartAlias, bool)> = Vec::new();
        let n = self.local_map.len();
        let mut i: usize = 0;
        proof {
            assert(self.local_map.seq().take(0) =~= Seq::<(PartAlias, ResolutionState)>::empty());
        }
        while i < n
            invariant
                n == self.local_map.seq().len(),
                i <= n,
                result@ == pending_entries(self.local_map.seq().take(i as int), true),
            decreases n - i,
        {
            let entry = self.local_map.entry(i);
            proof {
                assert(self.local_map.seq().take(i + 1).drop_last() =~= self.local_map.seq().take(i as int));
            }
            if let ResolutionState::Pending = entry.1 {
                result.push((entry.0.clone(), true));
            }
            i = i + 1;
        }
        proof {
            assert(self.local_map.seq().take(n as int) =~= self.local_map.seq());
        }
        let ghost first = result@;
        let m = self.map.len();
        let mut j: usize = 0;
        proof {
            assert(self.map.seq().take(0) =~= Seq::<(PartAlias, ResolutionState)>::empty());
            assert(result@ =~= first + pending_entries(self.map.seq().take(0), false));
        }
        while j < m
            invariant
                m == self.map.seq().len(),
                j <= m,
                result@ == first + pending_entries(self.map.seq().take(j as int), false),
            decreases m - j,
        {
            let entry = self.map.entry(j);
            proof {
                assert(self.map.seq().take(j + 1).drop_last() =~= self.map.seq().take(j as int));
            }
            let ghost before = result@;
            if let ResolutionState::Pending = entry.1 {
                result.push((entry.0.clone(), false));
                proof {
                    assert(result@ =~= first + pending_entries(self.map.seq().take(j + 1), false));
                }
            } else {
                proof {
                    assert(result@ =~= first + pending_entries(self.map.seq().take(j + 1), false));
                }
            }
            j = j + 1;
        }
        proof {
            assert(self.map.seq().take(m as int) =~= self.map.seq());
        }
        result
    }

    /// Records what loading `alias` (asked for in the local map when `local`)
    /// gave. A loaded document becomes the state of `alias`; one from the
    /// library goes into `cache` under its kind, drops any local state of
    /// `alias`, and is then tracked in the library map; one found next to the
    /// document is kept among the local documents. The references of a loaded
    /// document are then scanned. A failure becomes the state of `alias`.
    pub fn apply_resolution(
        &mut self,
        cache: &mut PartCache,
        alias: PartAlias,
        local: bool,
        result: Result<(FileLocation, MultipartDocument), ResolutionError>,
    )
        ensures
            result matches Err(e) ==> {
                &&& final(self).states(local) == old(self).states(local).insert(
                    alias.key(),
                    ResolutionState::Missing(e),
                )
                &&& final(self).states(!local) == old(self).states(!local)
                &&& final(self).locals() == old(self).locals()
                &&& *final(cache) == *old(cache)
            },
            result matches Ok((location, document)) ==> {
                let kept_local = local && location == FileLocation::Local;
                &&& final(self).states(kept_local).contains_key(alias.key())
                &&& final(self).states(kept_local)[alias.key()] matches ResolutionState::Associated(d)
                    && *d == document
                &&& old(self).map@.dom().subset_of(final(self).map@.dom())
                &&& grown(
                    old(self).map@.remove(alias.key()),
                    final(self).map@.remove(alias.key()),
                    false,
                    *final(cache),
                    final(self).locals(),
                    subpart_scope(document.subparts@.dom(), *final(cache), final(self).locals()),
                )
                &&& grown(
                    old(self).local_map@.remove(alias.key()),
                    final(self).local_map@.remove(alias.key()),
                    true,
                    *final(cache),
                    final(self).locals(),
                    subpart_scope(document.subparts@.dom(), *final(cache), final(self).locals()),
                )
                &&& followed(old(self).map@, final(self).map@, *final(self), false)
                &&& followed(old(self).local_map@, final(self).local_map@, *final(self), true)
                &&& forall|i: int|
                    0 <= i < document.body.commands@.len() && #[trigger] document.body.commands@[i] is PartReference
                        ==> final(self).covered(document.body.commands@[i]->PartReference_0.name.key(), kept_local)
                &&& loaded_and_scanned(
                    *old(self),
                    *final(self),
                    alias.key(),
                    document,
                    local,
                    kept_local,
                    *final(cache),
                )
                &&& location matches FileLocation::Library(kind) ==> {
                    &&& kind == PartKind::Part ==> final(cache).parts()@ == old(cache).parts()@.insert(
                        alias.key(),
                        final(self).map@[alias.key()]->Associated_0,
                    ) && final(cache).primitives() == old(cache).primitives()
                    &&& kind == PartKind::Primitive ==> final(cache).primitives()@ == old(
                        cache,
                    ).primitives()@.insert(alias.key(), final(self).map@[alias.key()]->Associated_0)
                        && final(cache).parts() == old(cache).parts()
                    &&& final(self).locals() == old(self).locals()
                    &&& final(self).local_map@ == (if local {
                        old(self).local_map@.remove(alias.key())
                    } else {
                        old(self).local_map@
                    })
                }
                &&& location == FileLocation::Local ==> {
                    &&& *final(cache) == *old(cache)
                    &&& final(self).locals()@ == old(self).locals()@.insert(
                        alias.key(),
                        final(self).states(local)[alias.key()]->Associated_0,
                    )
                    &&& old(self).local_map@.dom().subset_of(final(self).local_map@.dom())
                }
            },
    {
        match result {
            Ok((location, document)) => {
                let document = Arc::new(document);
                let ghost asked_local = local;
                let ghost before_local_map = self.local_map@;
                let mut local = local;
                let ghost before_map = self.map@;
                match location {
                    FileLocation::Library(kind) => {
                        if local {
                            self.clear_state(&alias, true);
                        }
                        local = false;
                        cache.register(kind, alias.clone(), share(&document));
                    },
                    FileLocation::Local => {
                        self.local_cache.register(alias.clone(), share(&document));
                    },
                }
                let ghost mid = *self;
                let ghost k = alias.key();
                let ghost v = ResolutionState::Associated(document);
                self.scan_dependencies_with_parent(cache, None, &document, local);
                let ghost after_scan = *self;
                self.put_state(alias, local, ResolutionState::Associated(document));
                proof {
                    assert(scanned(mid, after_scan, document.body.commands@, document.subparts@, local, *cache));
                    assert(with_state(after_scan, *self, k, local, self.states(local)[k]));
                    assert(mid.map@ == before_map);
                    assert(mid.local_map@ == (if asked_local && !local {
                        before_local_map.remove(k)
                    } else {
                        before_local_map
                    }));
                    assert(mid.locals() == self.locals());
                    assert(local == (asked_local && location == FileLocation::Local));
                    assert(loaded_and_scanned(*old(self), *self, k, *document, asked_local, local, *cache));
                    assert(self.covered(k, local));
                    assert forall|i: int|
                        0 <= i < document.body.commands@.len() && #[trigger] document.body.commands@[i] is PartReference
                            implies self.covered(document.body.commands@[i]->PartReference_0.name.key(), local) by {
                        assert(after_scan.covered(document.body.commands@[i]->PartReference_0.name.key(), local));
                    }
                    let locals = self.locals();
                    let scope = subpart_scope(document.subparts@.dom(), *cache, locals);
                    lemma_grown_remove(mid.map@, after_scan.map@, k, false, *cache, locals, scope);
                    lemma_grown_remove(mid.local_map@, after_scan.local_map@, k, true, *cache, locals, scope);
                    assert(old(self).map@.remove(k) =~= mid.map@.remove(k));
                    assert(old(self).local_map@.remove(k) =~= mid.local_map@.remove(k));
                    assert(self.map@.remove(k) =~= after_scan.map@.remove(k));
                    assert(self.local_map@.remove(k) =~= after_scan.local_map@.remove(k));
                    if local {
                        lemma_followed_after_insert(mid.local_map@, after_scan.local_map@, after_scan, *self, k, v, true);
                        lemma_followed_trans(mid.map@, after_scan.map@, self.map@, after_scan, *self, false);
                        lemma_followed_same_except(old(self).local_map@, mid.local_map@, self.local_map@, *self, k, true);
                        lemma_followed_same_except(old(self).map@, mid.map@, self.map@, *self, k, false);
                    } else {
                        lemma_followed_after_insert(mid.map@, after_scan.map@, after_scan, *self, k, v, false);
                        lemma_followed_trans(mid.local_map@, after_scan.local_map@, self.local_map@, after_scan, *self, true);
                        lemma_followed_same_except(old(self).map@, mid.map@, self.map@, *self, k, false);
                        lemma_followed_same_except(old(self).local_map@, mid.local_map@, self.local_map@, *self, k, true);
                    }
                }
            },
            Err(error) => {
                self.put_state(alias, local, ResolutionState::Missing(error));
            },
        }
    }

    /// The failures that finishing would report: those of the library map,
    /// then those of the local map, which win for a key in both.
    pub open spec fn finished_failures(self) -> Map<Seq<char>, ResolutionError> {
        missing_errors(self.map@).union_prefer_right(missing_errors(self.local_map@))
    }

    /// Ends the resolution: the documents associated in the library map
    /// become the library entries, those of the local map the local entries,
    /// and the missing ones the failures.
    pub fn finish(self) -> (r: ResolutionResult)
        ensures
            r.library()@ == associated_documents(self.map@),
            r.local()@ == associated_documents(self.local_map@),
            r.library().seq() == associated_entries(self.map.seq()),
            r.local().seq() == associated_entries(self.local_map.seq()),
            r.failed()@ == self.finished_failures(),
            r.failed().seq() == with_failures(with_failures(Seq::empty(), self.map.seq()), self.local_map.seq()),
    {
        let ghost map = self.map@;
        let ghost local_map = self.local_map@;
        let mut failures: AliasMap<ResolutionError> = AliasMap::new();
        let library_entries = partition_resolver_map(self.map, &mut failures);
        let local_entries = partition_resolver_map(self.local_map, &mut failures);
        proof {
            assert(Map::<Seq<char>, ResolutionError>::empty().union_prefer_right(missing_errors(map))
                =~= missing_errors(map));
        }
        ResolutionResult::from_parts(library_entries, local_entries, failures)
    }
}

/// A query of a resolution result prefers what lies next to the model when
/// asked to: with `local`, a key among the local entries finds that local
/// document, flagged local, whatever the library entries hold; a key that is
/// not among them finds what a library query finds. A library query never
/// finds a local entry.
pub proof fn local_entries_are_preferred(r: ResolutionResult, k: Seq<char>)
    ensures
        r.local()@.contains_key(k) ==> r.lookup(k, true) == Some((r.local()@[k], true)),
        !r.local()@.contains_key(k) ==> r.lookup(k, true) == r.lookup(k, false),
        r.lookup(k, false) matches Some((d, flag)) ==> !flag && r.library()@.contains_key(k)
            && d == r.library()@[k],
        r.lookup(k, false) is None ==> !r.library()@.contains_key(k),
{
}

/// A document registered in the cache is what a query for its alias finds
/// next: always after registering a part, and after registering a primitive
/// unless a part of the same name is cached.
pub proof fn query_finds_registered(
    before: PartCache,
    after: PartCache,
    kind: PartKind,
    alias: PartAlias,
    document: Arc<MultipartDocument>,
)
    requires
        kind == PartKind::Part ==> after.parts()@ == before.parts()@.insert(alias.key(), document)
            && after.primitives() == before.primitives(),
        kind == PartKind::Primitive ==> after.primitives()@ == before.primitives()@.insert(
            alias.key(),
            document,
        ) && after.parts() == before.parts(),
    ensures
        kind == PartKind::Part || !before.parts()@.contains_key(alias.key()) ==> after.lookup(alias.key())
            == Some(document),
        kind == PartKind::Primitive && before.parts()@.contains_key(alias.key()) ==> after.lookup(
            alias.key(),
        ) == before.lookup(alias.key()),
{
}

/// A reference whose load failed is reported among the failures when the
/// resolution finishes, with the very error the loader gave. Where the
/// failed load was a library one, a failure recorded for the same name in
/// the local map takes its place.
pub proof fn failed_load_is_reported(
    before: DependencyResolver,
    after: DependencyResolver,
    alias: PartAlias,
    local: bool,
    error: ResolutionError,
)
    requires
        after.states(local) == before.states(local).insert(alias.key(), ResolutionState::Missing(error)),
        after.states(!local) == before.states(!local),
    ensures
        after.finished_failures().contains_key(alias.key()),
        local || !missing_errors(before.local_map@).contains_key(alias.key())
            ==> after.finished_failures()[alias.key()] == error,
{
}

} // verus!

