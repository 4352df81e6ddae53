//! Finding the couplings of a part in the structure of its LDraw document:
//! the references to coupling primitives, directly or through resolved
//! parts, with the chain of transforms that places each of them.

use std::sync::Arc;

use vstd::prelude::*;

use crate::couplings::registry::{first_match, PrimitiveMapping, PrimitiveRegistry};
use crate::couplings::{default_geometry_of, CouplingGeometry, CouplingSource, CouplingType};
use crate::document::{Command, Document, MultipartDocument};
use crate::library::ResolutionResult;
use crate::paths::string_views;
use crate::couplings::display_name;
use crate::text::{ascii_lowercase, decimal, is_ascii_text, lowercase_of, push_char, push_decimal, to_lowercase};

verus! {

/// A coupling found in a document, placed in world space. The position and
/// the normal are the bit patterns of single-precision components.
#[derive(Debug, Clone)]
pub struct DetectedCoupling {
    /// The type of the coupling.
    pub coupling_type: CouplingType,
    /// Where the coupling is, in world space.
    pub position: [u32; 3],
    /// The direction the coupling faces, in world space.
    pub normal: [u32; 3],
    /// The geometry of the coupling.
    pub geometry: CouplingGeometry,
    /// How the coupling was found.
    pub source: CouplingSource,
}

/// A reference to a coupling primitive found in a document.
#[derive(Debug)]
pub struct PrimitiveHit {
    /// The position, in the registry, of the mapping for the primitive.
    pub mapping: usize,
    /// The transforms of the references that lead from the document to the
    /// primitive, outermost first, the primitive reference's own last; each
    /// is a 4x4 matrix in column-major order of single-precision bit patterns.
    pub transforms: Vec<[u32; 16]>,
    /// The name of the primitive, in normal form.
    pub primitive_name: String,
}

/// What a hit says: the mapping's position, the transforms, and the name.
pub type HitView = (int, Seq<[u32; 16]>, Seq<char>);

/// What the hit `h` says.
pub open spec fn hit_view(h: PrimitiveHit) -> HitView {
    (h.mapping as int, h.transforms@, h.primitive_name@)
}

/// What each hit of `s` says, in order.
pub open spec fn hit_views(s: Seq<PrimitiveHit>) -> Seq<HitView> {
    s.map_values(|h: PrimitiveHit| hit_view(h))
}

/// The coupling primitives that the commands `cmds` refer to, in order,
/// reached through the transforms `path`. A reference whose name refers to a
/// mapping of `registry` is a hit; any other reference to a document of
/// `library` is followed into that document's body, unless the document is
/// among `open`, the documents being followed already (a reference back to
/// one of them would be followed forever).
pub open spec fn command_hits(
    registry: Seq<PrimitiveMapping>,
    library: Map<Seq<char>, Arc<MultipartDocument>>,
    cmds: Seq<Command>,
    path: Seq<[u32; 16]>,
    open: Set<Seq<char>>,
) -> Seq<HitView>
    decreases library.dom().difference(open).len(), cmds.len(),
    when library.dom().finite()
{
    if cmds.len() == 0 {
        Seq::empty()
    } else {
        command_hits(registry, library, cmds.drop_last(), path, open) + match cmds.last() {
            Command::PartReference(r) => {
                let here = path.push(r.matrix);
                let k = r.name.key();
                match first_match(k, registry) {
                    Some(i) => seq![(i, here, k)],
                    None => if library.contains_key(k) && !open.contains(k) {
                        proof {
                            library.dom().lemma_set_insert_diff_decreases(open, k);
                        }
                        command_hits(registry, library, library[k].body.commands@, here, open.insert(k))
                    } else {
                        Seq::empty()
                    },
                }
            },
            Command::Other(_) => Seq::empty(),
        }
    }
}

/// Every hit names a mapping of the registry that its primitive's name
/// refers to, and is reached through more transforms than the commands it
/// was found under.
pub proof fn hits_name_their_mappings(
    registry: Seq<PrimitiveMapping>,
    library: Map<Seq<char>, Arc<MultipartDocument>>,
    cmds: Seq<Command>,
    path: Seq<[u32; 16]>,
    open: Set<Seq<char>>,
)
    requires
        library.dom().finite(),
    ensures
        forall|k: int|
            0 <= k < command_hits(registry, library, cmds, path, open).len() ==> {
                let h = #[trigger] command_hits(registry, library, cmds, path, open)[k];
                &&& 0 <= h.0 < registry.len()
                &&& crate::couplings::registry::refers_to(h.2, registry[h.0])
                &&& h.1.len() > path.len()
            },
    decreases library.dom().difference(open).len(), cmds.len(),
{
    if cmds.len() > 0 {
        let before = command_hits(registry, library, cmds.drop_last(), path, open);
        hits_name_their_mappings(registry, library, cmds.drop_last(), path, open);
        let all = command_hits(registry, library, cmds, path, open);
        match cmds.last() {
            Command::PartReference(r) => {
                let here = path.push(r.matrix);
                let k = r.name.key();
                crate::couplings::registry::lemma_first_match(k, registry);
                if first_match(k, registry) is None && library.contains_key(k) && !open.contains(k) {
                    library.dom().lemma_set_insert_diff_decreases(open, k);
                    hits_name_their_mappings(registry, library, library[k].body.commands@, here, open.insert(k));
                }
                assert forall|j: int| 0 <= j < all.len() implies {
                    let h = #[trigger] all[j];
                    &&& 0 <= h.0 < registry.len()
                    &&& crate::couplings::registry::refers_to(h.2, registry[h.0])
                    &&& h.1.len() > path.len()
                } by {
                    if j < before.len() {
                        assert(all[j] == before[j]);
                    } else if first_match(k, registry) is None && library.contains_key(k) && !open.contains(k) {
                        let deeper = command_hits(
                            registry,
                            library,
                            library[k].body.commands@,
                            here,
                            open.insert(k),
                        );
                        assert(all[j] == deeper[j - before.len()]);
                    }
                }
            },
            Command::Other(_) => {
                assert forall|j: int| 0 <= j < all.len() implies {
                    let h = #[trigger] all[j];
                    &&& 0 <= h.0 < registry.len()
                    &&& crate::couplings::registry::refers_to(h.2, registry[h.0])
                    &&& h.1.len() > path.len()
                } by {
                    assert(all[j] == before[j]);
                }
            },
        }
    }
}

/// The key that the command `c` refers to when it is a reference that the
/// walk follows into a document of `library`: not a coupling primitive.
pub open spec fn followed_key(
    registry: Seq<PrimitiveMapping>,
    library: Map<Seq<char>, Arc<MultipartDocument>>,
    c: Command,
) -> Option<Seq<char>> {
    match c {
        Command::PartReference(r) => if first_match(r.name.key(), registry) is None && library.contains_key(
            r.name.key(),
        ) {
            Some(r.name.key())
        } else {
            None
        },
        Command::Other(_) => None,
    }
}

/// Every document of `library` is followed, through the references among
/// `cmds`, only to documents whose rank is below `limit`.
pub open spec fn refers_below(
    registry: Seq<PrimitiveMapping>,
    library: Map<Seq<char>, Arc<MultipartDocument>>,
    rank: Map<Seq<char>, nat>,
    cmds: Seq<Command>,
    limit: nat,
) -> bool {
    forall|i: int|
        0 <= i < cmds.len() && #[trigger] followed_key(registry, library, cmds[i]) is Some ==> rank.contains_key(
            followed_key(registry, library, cmds[i])->0,
        ) && rank[followed_key(registry, library, cmds[i])->0] < limit
}

/// `rank` ranks the documents of `library` so that each refers, apart from
/// coupling primitives, only to documents of lower rank: references among
/// the documents never form a cycle.
pub open spec fn ranked(
    registry: Seq<PrimitiveMapping>,
    library: Map<Seq<char>, Arc<MultipartDocument>>,
    rank: Map<Seq<char>, nat>,
) -> bool {
    &&& library.dom().subset_of(rank.dom())
    &&& forall|k: Seq<char>|
        #[trigger] library.contains_key(k) ==> refers_below(registry, library, rank, library[k].body.commands@, rank[k])
}

/// The coupling primitives that `cmds` refer to, found by following every
/// reference to a document of `library`, with no guard against cycles: the
/// walk of the detector as first written. It is defined for references to
/// documents ranked below `limit`, which a ranked library keeps to.
pub open spec fn unguarded_hits(
    registry: Seq<PrimitiveMapping>,
    library: Map<Seq<char>, Arc<MultipartDocument>>,
    rank: Map<Seq<char>, nat>,
    cmds: Seq<Command>,
    path: Seq<[u32; 16]>,
    limit: nat,
) -> Seq<HitView>
    decreases limit, cmds.len(),
{
    if cmds.len() == 0 {
        Seq::empty()
    } else {
        unguarded_hits(registry, library, rank, cmds.drop_last(), path, limit) + match cmds.last() {
            Command::PartReference(r) => {
                let here = path.push(r.matrix);
                let k = r.name.key();
                match first_match(k, registry) {
                    Some(i) => seq![(i, here, k)],
                    None => if library.contains_key(k) && rank.contains_key(k) && rank[k] < limit {
                        unguarded_hits(registry, library, rank, library[k].body.commands@, here, rank[k])
                    } else {
                        Seq::empty()
                    },
                }
            },
            Command::Other(_) => Seq::empty(),
        }
    }
}

/// In a library whose references never form a cycle, the guard of the walk
/// against cycles changes nothing: the walk finds the same primitives, in
/// the same order and through the same transforms, as following every
/// reference does. (`open`, the documents being followed, are ranked at
/// `limit` or above, so no reference below `limit` leads back to them.)
pub proof fn guard_changes_nothing_without_cycles(
    registry: Seq<PrimitiveMapping>,
    library: Map<Seq<char>, Arc<MultipartDocument>>,
    rank: Map<Seq<char>, nat>,
    cmds: Seq<Command>,
    path: Seq<[u32; 16]>,
    open: Set<Seq<char>>,
    limit: nat,
)
    requires
        library.dom().finite(),
        ranked(registry, library, rank),
        refers_below(registry, library, rank, cmds, limit),
        forall|k: Seq<char>| #[trigger] open.contains(k) && rank.contains_key(k) ==> rank[k] >= limit,
    ensures
        command_hits(registry, library, cmds, path, open) == unguarded_hits(
            registry,
            library,
            rank,
            cmds,
            path,
            limit,
        ),
    decreases limit, cmds.len(),
{
    if cmds.len() > 0 {
        let last = cmds.len() - 1;
        assert(refers_below(registry, library, rank, cmds.drop_last(), limit)) by {
            assert forall|i: int|
                0 <= i < cmds.drop_last().len() && #[trigger] followed_key(
                    registry,
                    library,
                    cmds.drop_last()[i],
                ) is Some implies rank.contains_key(followed_key(registry, library, cmds.drop_last()[i])->0)
                && rank[followed_key(registry, library, cmds.drop_last()[i])->0] < limit by {
                assert(cmds.drop_last()[i] == cmds[i]);
            }
        }
        guard_changes_nothing_without_cycles(registry, library, rank, cmds.drop_last(), path, open, limit);
        if let Command::PartReference(r) = cmds.last() {
            let k = r.name.key();
            let here = path.push(r.matrix);
            if first_match(k, registry) is None && library.contains_key(k) {
                assert(followed_key(registry, library, cmds[last]) == Some(k));
                assert(rank.contains_key(k) && rank[k] < limit);
                assert(!open.contains(k));
                assert(refers_below(registry, library, rank, library[k].body.commands@, rank[k]));
                assert forall|x: Seq<char>| #[trigger] open.insert(k).contains(x) && rank.contains_key(x) implies rank[x]
                    >= rank[k] by {
                    if x != k {
                        assert(open.contains(x));
                    }
                }
                guard_changes_nothing_without_cycles(
                    registry,
                    library,
                    rank,
                    library[k].body.commands@,
                    here,
                    open.insert(k),
                    rank[k],
                );
            }
        }
    }
}

/// The coupling primitives of the subparts `s`, in order, each walked from
/// its own origin.
pub open spec fn subpart_hits(
    registry: Seq<PrimitiveMapping>,
    library: Map<Seq<char>, Arc<MultipartDocument>>,
    s: Seq<(crate::alias::PartAlias, Document)>,
) -> Seq<HitView>
    decreases s.len(),
{
    if s.len() == 0 {
        Seq::empty()
    } else {
        subpart_hits(registry, library, s.drop_last()) + command_hits(
            registry,
            library,
            s.last().1.commands@,
            Seq::empty(),
            Set::empty(),
        )
    }
}

/// Each subpart contributes its own hits wherever it stands: the hits of two
/// runs of subparts, one after the other, are the hits of the first run
/// followed by those of the second.
pub proof fn subpart_hits_of_concatenation(
    registry: Seq<PrimitiveMapping>,
    library: Map<Seq<char>, Arc<MultipartDocument>>,
    s1: Seq<(crate::alias::PartAlias, Document)>,
    s2: Seq<(crate::alias::PartAlias, Document)>,
)
    ensures
        subpart_hits(registry, library, s1 + s2) == subpart_hits(registry, library, s1) + subpart_hits(
            registry,
            library,
            s2,
        ),
    decreases s2.len(),
{
    if s2.len() == 0 {
        assert(s1 + s2 =~= s1);
        assert(subpart_hits(registry, library, s1) + Seq::<HitView>::empty() =~= subpart_hits(registry, library, s1));
    } else {
        assert((s1 + s2).drop_last() =~= s1 + s2.drop_last());
        assert((s1 + s2).last() == s2.last());
        subpart_hits_of_concatenation(registry, library, s1, s2.drop_last());
        let tail = command_hits(registry, library, s2.last().1.commands@, Seq::empty(), Set::empty());
        assert(subpart_hits(registry, library, s1) + subpart_hits(registry, library, s2.drop_last()) + tail
            =~= subpart_hits(registry, library, s1) + (subpart_hits(registry, library, s2.drop_last()) + tail));
    }
}

/// A single subpart contributes the hits of its own commands, walked from
/// its own origin with no document being followed.
pub proof fn subpart_hits_of_one(
    registry: Seq<PrimitiveMapping>,
    library: Map<Seq<char>, Arc<MultipartDocument>>,
    subpart: (crate::alias::PartAlias, Document),
)
    ensures
        subpart_hits(registry, library, seq![subpart]) == command_hits(
            registry,
            library,
            subpart.1.commands@,
            Seq::empty(),
            Set::empty(),
        ),
{
    let one = seq![subpart];
    assert(one.len() == 1);
    assert(one.last() == subpart);
    assert(one.drop_last() =~= Seq::<(crate::alias::PartAlias, Document)>::empty());
    assert(subpart_hits(registry, library, one.drop_last()) == Seq::<HitView>::empty());
    assert(Seq::<HitView>::empty() + command_hits(registry, library, subpart.1.commands@, Seq::empty(), Set::empty())
        =~= command_hits(registry, library, subpart.1.commands@, Seq::empty(), Set::empty()));
}

/// The coupling primitives of a document: those of its body, then those of
/// each of its subparts.
pub open spec fn document_hits(
    registry: Seq<PrimitiveMapping>,
    library: Map<Seq<char>, Arc<MultipartDocument>>,
    document: MultipartDocument,
) -> Seq<HitView> {
    command_hits(registry, library, document.body.commands@, Seq::empty(), Set::empty()) + subpart_hits(
        registry,
        library,
        document.subparts.seq(),
    )
}

/// The geometry of the coupling that `mapping` stands for: its override, or
/// else the default of its coupling type.
pub open spec fn geometry_of(mapping: PrimitiveMapping) -> CouplingGeometry {
    match mapping.geometry_override {
        Some(g) => g,
        None => default_geometry_of(mapping.coupling_type),
    }
}

/// The geometry of the coupling that `mapping` stands for.
pub fn mapping_geometry(mapping: &PrimitiveMapping) -> (r: CouplingGeometry)
    ensures
        r == geometry_of(*mapping),
{
    match mapping.geometry_override {
        Some(g) => g,
        None => mapping.coupling_type.default_geometry(),
    }
}

/// `key` is among `keys`.
fn is_open(keys: &Vec<String>, key: &String) -> (r: bool)
    ensures
        r == string_views(keys@).contains(key@),
{
    let mut i: usize = 0;
    while i < keys.len()
        invariant
            i <= keys@.len(),
            forall|j: int| 0 <= j < i ==> keys@[j]@ != key@,
        decreases keys@.len() - i,
    {
        if keys[i] == *key {
            assert(string_views(keys@)[i as int] == key@);
            return true;
        }
        i = i + 1;
    }
    proof {
        if string_views(keys@).contains(key@) {
            let j = choose|j: int| 0 <= j < string_views(keys@).len() && string_views(keys@)[j] == key@;
            assert(keys@[j]@ == key@);
        }
    }
    false
}

/// A copy of a chain of transforms.
fn copy_transforms(path: &Vec<[u32; 16]>) -> (r: Vec<[u32; 16]>)
    ensures
        r@ == path@,
{
    let mut r: Vec<[u32; 16]> = Vec::new();
    let mut i: usize = 0;
    while i < path.len()
        invariant
            i <= path@.len(),
            r@ == path@.take(i as int),
        decreases path@.len() - i,
    {
        r.push(path[i]);
        i = i + 1;
        assert(r@ =~= path@.take(i as int));
    }
    assert(path@.take(path@.len() as int) =~= path@);
    r
}

/// A copy of a list of names.
fn copy_keys(keys: &Vec<String>) -> (r: Vec<String>)
    ensures
        string_views(r@) == string_views(keys@),
{
    let mut r: Vec<String> = Vec::new();
    let mut i: usize = 0;
    while i < keys.len()
        invariant
            i <= keys@.len(),
            string_views(r@) == string_views(keys@.take(i as int)),
        decreases keys@.len() - i,
    {
        let ghost before = r@;
        r.push(keys[i].clone());
        proof {
            assert(string_views(r@) =~= string_views(before).push(keys@[i as int]@));
            assert(string_views(keys@.take(i + 1)) =~= string_views(keys@.take(i as int)).push(keys@[i as int]@));
        }
        i = i + 1;
    }
    assert(keys@.take(keys@.len() as int) =~= keys@);
    r
}

/// `s` with every space turned into an underscore.
pub open spec fn underscored(s: Seq<char>) -> Seq<char> {
    s.map_values(|c: char| if c == ' ' { '_' } else { c })
}

/// The identifier of the coupling at position `index` among those of a
/// part, given the lower-cased name of its type: the name with underscores
/// for spaces, an underscore, and the position in decimal.
pub fn id_from_lowered_name(lowered: &str, index: usize) -> (r: String)
    ensures
        r@ == underscored(lowered@) + seq!['_'] + decimal(index as nat),
{
    let mut id = String::new();
    for c in it: lowered.chars()
        invariant
            it.seq() == lowered@,
            id@ == underscored(lowered@.take(it.index() as int)),
    {
        let ghost i = it.index() as int;
        if c == ' ' {
            push_char(&mut id, '_');
        } else {
            push_char(&mut id, c);
        }
        assert(id@ =~= underscored(lowered@.take(i + 1)));
    }
    assert(lowered@.take(lowered@.len() as int) =~= lowered@);
    let ghost named = id@;
    push_char(&mut id, '_');
    push_decimal(&mut id, index);
    assert(id@ =~= named + seq!['_'] + decimal(index as nat));
    id
}

/// The identifier of the coupling of type `coupling_type` at position
/// `index` among those of a part: the lower-cased name of the type with
/// underscores for spaces, an underscore, and the position, as in `stud_0`.
pub fn coupling_id(coupling_type: CouplingType, index: usize) -> (r: String)
    ensures
        r@ == underscored(lowercase_of(display_name(coupling_type))) + seq!['_'] + decimal(index as nat),
        is_ascii_text(display_name(coupling_type)) ==> r@ == underscored(ascii_lowercase(display_name(coupling_type)))
            + seq!['_'] + decimal(index as nat),
{
    let lowered = to_lowercase(coupling_type.name());
    id_from_lowered_name(lowered.as_str(), index)
}

/// Coupling identifiers at different positions differ, whatever the types
/// of the couplings: the position is what follows the last underscore of an
/// identifier, so the identifiers of a part's couplings never repeat.
pub proof fn coupling_ids_are_distinct(t1: CouplingType, i: nat, t2: CouplingType, j: nat)
    requires
        i != j,
    ensures
        underscored(lowercase_of(display_name(t1))) + seq!['_'] + decimal(i) != underscored(
            lowercase_of(display_name(t2)),
        ) + seq!['_'] + decimal(j),
{
    crate::text::lemma_decimal_digits(i);
    crate::text::lemma_decimal_digits(j);
    if underscored(lowercase_of(display_name(t1))) + seq!['_'] + decimal(i) == underscored(
        lowercase_of(display_name(t2)),
    ) + seq!['_'] + decimal(j) {
        crate::text::lemma_after_last(
            underscored(lowercase_of(display_name(t1))),
            underscored(lowercase_of(display_name(t2))),
            '_',
            decimal(i),
            decimal(j),
        );
        crate::text::lemma_decimal_injective(i, j);
    }
}

/// Finds the coupling primitives that the documents of a part refer to.
pub struct CouplingDetector {
    registry: PrimitiveRegistry,
}

impl CouplingDetector {
    /// The registry of primitives the detector looks for.
    pub closed spec fn primitives(self) -> PrimitiveRegistry {
        self.registry
    }

    /// A detector of the standard LDraw primitives.
    pub fn new() -> (r: Self)
        ensures
            crate::couplings::registry::mapping_entries(r.primitives().entries())
                == crate::couplings::registry::standard_entries(),
    {
        CouplingDetector { registry: PrimitiveRegistry::new() }
    }

    /// The registry of primitives the detector looks for.
    pub fn registry(&self) -> (r: &PrimitiveRegistry)
        ensures
            *r == self.primitives(),
    {
        &self.registry
    }

    /// Appends the hits of `commands`, reached through the transforms `path`,
    /// with the documents named by `open_keys` being followed already.
    fn process_commands(
        &self,
        commands: &Vec<Command>,
        path: &Vec<[u32; 16]>,
        open_keys: &Vec<String>,
        resolution_result: &ResolutionResult,
        hits: &mut Vec<PrimitiveHit>,
        Ghost(open): Ghost<Set<Seq<char>>>,
    )
        requires
            resolution_result.library()@.dom().finite(),
            forall|x: Seq<char>| open.contains(x) <==> string_views(open_keys@).contains(x),
        ensures
            hit_views(final(hits)@) == hit_views(old(hits)@) + command_hits(
                self.registry.entries(),
                resolution_result.library()@,
                commands@,
                path@,
                open,
            ),
        decreases resolution_result.library()@.dom().difference(open).len(),
    {
        let ghost registry = self.registry.entries();
        let ghost library = resolution_result.library()@;
        let ghost start = hit_views(hits@);
        let n = commands.len();
        let mut i: usize = 0;
        proof {
            assert(commands@.take(0) =~= Seq::<Command>::empty());
            assert(start + Seq::<HitView>::empty() =~= start);
        }
        while i < n
            invariant
                n == commands@.len(),
                i <= n,
                registry == self.registry.entries(),
                library == resolution_result.library()@,
                library.dom().finite(),
                forall|x: Seq<char>| open.contains(x) <==> string_views(open_keys@).contains(x),
                hit_views(hits@) == start + command_hits(registry, library, commands@.take(i as int), path@, open),
            decreases n - i,
        {
            let ghost before = hit_views(hits@);
            let ghost prefix = commands@.take(i as int);
            proof {
                assert(commands@.take(i + 1).drop_last() =~= prefix);
                assert(commands@.take(i + 1).last() == commands@[i as int]);
            }
            match &commands[i] {
                Command::PartReference(part_ref) => {
                    let mut here = copy_transforms(path);
                    here.push(part_ref.matrix);
                    let ghost k = part_ref.name.key();
                    match self.registry.find_mapping_index(part_ref.name.normalized.as_str()) {
                        Some(index) => {
                            let ghost hit_before = hits@;
                            let hit = PrimitiveHit {
                                mapping: index,
                                transforms: here,
                                primitive_name: part_ref.name.normalized.clone(),
                            };
                            hits.push(hit);
                            proof {
                                assert(hit_views(hits@) =~= hit_views(hit_before).push(
                                    (index as int, path@.push(part_ref.matrix), k),
                                ));
                            }
                        },
                        None => {
                            if let Some((resolved, _is_local)) = resolution_result.query(&part_ref.name, false) {
                                if !is_open(open_keys, &part_ref.name.normalized) {
                                    let mut deeper = copy_keys(open_keys);
                                    let ghost kept = deeper@;
                                    deeper.push(part_ref.name.normalized.clone());
                                    proof {
                                        library.dom().lemma_set_insert_diff_decreases(open, k);
                                        assert forall|x: Seq<char>| open.insert(k).contains(x) <==> string_views(
                                            deeper@,
                                        ).contains(x) by {
                                            assert(string_views(deeper@) =~= string_views(kept).push(k));
                                            assert(string_views(deeper@) =~= string_views(open_keys@).push(k));
                                            if string_views(open_keys@).contains(x) {
                                                let j = choose|j: int|
                                                    0 <= j < string_views(open_keys@).len()
                                                        && string_views(open_keys@)[j] == x;
                                                assert(string_views(deeper@)[j] == x);
                                            }
                                            if string_views(deeper@).contains(x) && x != k {
                                                let j = choose|j: int|
                                                    0 <= j < string_views(deeper@).len()
                                                        && string_views(deeper@)[j] == x;
                                                assert(string_views(open_keys@)[j] == x);
                                            }
                                            if x == k {
                                                assert(string_views(deeper@)[string_views(open_keys@).len() as int]
                                                    == x);
                                            }
                                        }
                                    }
                                    self.process_commands(
                                        &resolved.body.commands,
                                        &here,
                                        &deeper,
                                        resolution_result,
                                        hits,
                                        Ghost(open.insert(k)),
                                    );
                                }
                            }
                        },
                    }
                },
                Command::Other(_) => {},
            }
            proof {
                assert(hit_views(hits@) =~= start + command_hits(
                    registry,
                    library,
                    commands@.take(i + 1),
                    path@,
                    open,
                ));
            }
            i = i + 1;
        }
        proof {
            assert(commands@.take(n as int) =~= commands@);
        }
    }

    /// The references to coupling primitives in a document: those of its
    /// body, then those of each subpart, each with the transforms that lead
    /// to it. References to other parts are followed into the documents that
    /// `resolution_result` found for them in the library.
    pub fn find_primitive_references(
        &self,
        document: &MultipartDocument,
        resolution_result: &ResolutionResult,
    ) -> (r: Vec<PrimitiveHit>)
        ensures
            hit_views(r@) == document_hits(self.primitives().entries(), resolution_result.library()@, *document),
    {
        proof {
            use_type_invariant(&document.subparts);
            crate::alias_map::lemma_entries_map_finite(resolution_result.library().seq());
        }
        let mut hits: Vec<PrimitiveHit> = Vec::new();
        let no_transforms: Vec<[u32; 16]> = Vec::new();
        let no_keys: Vec<String> = Vec::new();
        proof {
            assert(string_views(no_keys@) =~= Seq::<Seq<char>>::empty());
            assert(hit_views(hits@) =~= Seq::<HitView>::empty());
        }
        self.process_commands(
            &document.body.commands,
            &no_transforms,
            &no_keys,
            resolution_result,
            &mut hits,
            Ghost(Set::empty()),
        );
        let ghost body = hit_views(hits@);
        let ghost registry = self.registry.entries();
        let ghost library = resolution_result.library()@;
        let ghost subparts = document.subparts.seq();
        let n = document.subparts.len();
        let mut i: usize = 0;
        proof {
            assert(subparts.take(0) =~= Seq::<(crate::alias::PartAlias, Document)>::empty());
            assert(body + Seq::<HitView>::empty() =~= body);
        }
        while i < n
            invariant
                n == subparts.len(),
                subparts == document.subparts.seq(),
                i <= n,
                registry == self.registry.entries(),
                library == resolution_result.library()@,
                library.dom().finite(),
                no_transforms@ == Seq::<[u32; 16]>::empty(),
                string_views(no_keys@) == Seq::<Seq<char>>::empty(),
                hit_views(hits@) == body + subpart_hits(registry, library, subparts.take(i as int)),
            decreases n - i,
        {
            proof {
                assert(subparts.take(i + 1).drop_last() =~= subparts.take(i as int));
            }
            let entry = document.subparts.entry(i);
            let ghost before = hit_views(hits@);
            self.process_commands(
                &entry.1.commands,
                &no_transforms,
                &no_keys,
                resolution_result,
                &mut hits,
                Ghost(Set::empty()),
            );
            proof {
                assert(hit_views(hits@) =~= body + subpart_hits(registry, library, subparts.take(i + 1)));
            }
            i = i + 1;
        }
        proof {
            assert(subparts.take(n as int) =~= subparts);
        }
        hits
    }
}

impl Default for CouplingDetector {
    fn default() -> (r: Self)
        ensures
            crate::couplings::registry::mapping_entries(r.primitives().entries())
                == crate::couplings::registry::standard_entries(),
    {
        CouplingDetector::new()
    }
}

} // verus!
