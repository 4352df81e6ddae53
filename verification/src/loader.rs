//! Loading parts by their number: the name a part number stands for, and a
//! loader that keeps the colour table and the part cache between loads.

use vstd::prelude::*;

use crate::alias::PartAlias;
use crate::document::ColorCatalog;
use crate::library::PartCache;
use crate::text::{
    ascii_lowercase, chars_of, ends_with, has_suffix, is_ascii_text, is_white_space, lemma_trimmed_edges,
    lemma_trimmed_fixed, lowercase_of, push_char, to_lowercase, trim, trimmed,
};

verus! {

/// `lowered`, the lower-cased form of a name, ends in one of the LDraw file
/// extensions `.dat`, `.ldr` or `.mpd`.
pub open spec fn has_ldraw_extension(lowered: Seq<char>) -> bool {
    has_suffix(lowered, ".dat"@) || has_suffix(lowered, ".ldr"@) || has_suffix(lowered, ".mpd"@)
}

/// The file name that a part number stands for: the trimmed name itself when
/// its lower-cased form `lowered` has an LDraw extension, else the trimmed
/// name with `.dat` appended.
pub open spec fn suffixed_name(name: Seq<char>, lowered: Seq<char>) -> Seq<char> {
    if has_ldraw_extension(lowered) {
        name
    } else {
        name + ".dat"@
    }
}

/// The alias for the trimmed part name `name`, given its lower-cased form
/// `lowered`: `name` as written when `lowered` ends in `.dat`, `.ldr` or
/// `.mpd`, else `name` with `.dat` appended.
pub fn suffixed_alias(name: String, lowered: &str) -> (r: PartAlias)
    ensures
        r.original@ == suffixed_name(name@, lowered@),
        r.wf(),
{
    let lowered_chars = chars_of(lowered);
    if ends_with(&lowered_chars, ".dat") || ends_with(&lowered_chars, ".ldr") || ends_with(
        &lowered_chars,
        ".mpd",
    ) {
        PartAlias::new(name)
    } else {
        let ghost written = name@;
        let mut full = name;
        push_char(&mut full, '.');
        push_char(&mut full, 'd');
        push_char(&mut full, 'a');
        push_char(&mut full, 't');
        proof {
            reveal_strlit(".dat");
            assert(full@ =~= written + ".dat"@);
        }
        PartAlias::new(full)
    }
}

/// The alias for a part number: surrounding white space is dropped, and
/// `.dat` is appended unless the name already ends in `.dat`, `.ldr` or
/// `.mpd` in any case.
pub fn alias_with_default_suffix(part_id: &str) -> (r: PartAlias)
    ensures
        r.original@ == suffixed_name(trimmed(part_id@), lowercase_of(trimmed(part_id@))),
        is_ascii_text(trimmed(part_id@)) ==> r.original@ == suffixed_name(
            trimmed(part_id@),
            ascii_lowercase(trimmed(part_id@)),
        ),
        r.wf(),
{
    let name = trim(part_id);
    let lowered = to_lowercase(name.as_str());
    suffixed_alias(name, lowered.as_str())
}

/// Adding the default suffix is idempotent: the name it gives for a part
/// number written in ASCII, taken again as a part number, gives that same
/// name back (and is itself written in ASCII).
pub proof fn default_suffix_is_idempotent(part_id: Seq<char>)
    requires
        is_ascii_text(trimmed(part_id)),
    ensures
        is_ascii_text(trimmed(suffixed_name(trimmed(part_id), ascii_lowercase(trimmed(part_id))))),
        suffixed_name(
            trimmed(suffixed_name(trimmed(part_id), ascii_lowercase(trimmed(part_id)))),
            ascii_lowercase(trimmed(suffixed_name(trimmed(part_id), ascii_lowercase(trimmed(part_id))))),
        ) == suffixed_name(trimmed(part_id), ascii_lowercase(trimmed(part_id))),
{
    let t = trimmed(part_id);
    let once = suffixed_name(t, ascii_lowercase(t));
    let dat = ".dat"@;
    reveal_strlit(".dat");
    lemma_trimmed_edges(part_id);
    if once != t {
        assert(once == t + dat);
        assert(!is_white_space(once.last()));
        if t.len() > 0 {
            assert(once[0] == t[0]);
        }
        lemma_trimmed_fixed(once);
        assert(is_ascii_text(once)) by {
            assert forall|i: int| 0 <= i < once.len() implies crate::text::is_ascii_char(#[trigger] once[i]) by {
                if i < t.len() {
                    assert(once[i] == t[i]);
                } else {
                    assert(once[i] == dat[i - t.len()]);
                }
            }
        }
        assert(ascii_lowercase(once) =~= ascii_lowercase(t) + dat);
        assert(ascii_lowercase(once).skip(ascii_lowercase(once).len() - dat.len()) =~= dat);
        assert(has_ldraw_extension(ascii_lowercase(once)));
    } else {
        lemma_trimmed_fixed(t);
    }
}

/// A loader of library parts that keeps its colour table and a cache of the
/// documents loaded so far, so that successive loads share them.
pub struct PartLoader<L> {
    loader: L,
    colors: ColorCatalog,
    cache: PartCache,
}

impl<L> PartLoader<L> {
    /// The underlying loader.
    pub closed spec fn loader(self) -> L {
        self.loader
    }

    /// The colour table.
    pub closed spec fn color_table(self) -> ColorCatalog {
        self.colors
    }

    /// The cache of loaded documents.
    pub closed spec fn part_cache(self) -> PartCache {
        self.cache
    }

    /// A loader over `loader` with the colour table `colors` and an empty
    /// cache.
    pub fn new(loader: L, colors: ColorCatalog) -> (r: Self)
        ensures
            r.loader() == loader,
            r.color_table() == colors,
            r.part_cache().parts()@ == Map::<Seq<char>, std::sync::Arc<crate::document::MultipartDocument>>::empty(),
            r.part_cache().primitives()@ == Map::<Seq<char>, std::sync::Arc<crate::document::MultipartDocument>>::empty(),
    {
        PartLoader { loader, colors, cache: PartCache::new() }
    }

    /// The colour table.
    pub fn colors(&self) -> (r: &ColorCatalog)
        ensures
            *r == self.color_table(),
    {
        &self.colors
    }

    /// The underlying loader.
    pub fn inner(&self) -> (r: &L)
        ensures
            *r == self.loader(),
    {
        &self.loader
    }

    /// The cache of loaded documents, to be filled by a load.
    pub fn cache_mut(&mut self) -> (r: &mut PartCache)
        ensures
            *r == old(self).part_cache(),
            final(self).part_cache() == *final(r),
            final(self).loader() == old(self).loader(),
            final(self).color_table() == old(self).color_table(),
    {
        &mut self.cache
    }
}

} // verus!
