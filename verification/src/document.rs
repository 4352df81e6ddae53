//! The parts of an LDraw document that the library reads: its header fields,
//! its commands, and the part references among them.

use vstd::prelude::*;

use crate::alias::PartAlias;
use crate::alias_map::AliasMap;

verus! {

/// A colour in red, green, blue and alpha channels.
#[derive(Debug, Clone, Copy, PartialEq, Eq)]
pub struct Rgba {
    pub red: u8,
    pub green: u8,
    pub blue: u8,
    pub alpha: u8,
}

/// A colour of the LDraw colour table.
#[derive(Debug, Clone, PartialEq, Eq)]
pub struct Color {
    /// The colour's number in the table.
    pub code: u32,
    /// The colour's name.
    pub name: String,
    /// The main colour.
    pub color: Rgba,
    /// The colour of edge lines.
    pub edge: Rgba,
}

/// The colour table, by colour number.
pub type ColorCatalog = std::collections::HashMap<u32, Color>;

/// The colour in which a command draws.
#[derive(Debug, Clone, Copy, PartialEq, Eq)]
pub enum ColorReference {
    /// The colour of the enclosing reference (number 16).
    Current,
    /// The edge colour of the enclosing reference (number 24).
    Complement,
    /// A colour of the table, by number.
    Code(u32),
}

/// The winding order that a back-face certified document declares.
#[derive(Debug, Clone, Copy, PartialEq, Eq)]
pub enum Winding {
    Ccw,
    Cw,
}

/// The back-face culling certification of a document.
#[derive(Debug, Clone, Copy, PartialEq, Eq)]
pub enum BfcCertification {
    NotApplicable,
    NoCertify,
    Certify(Winding),
}

/// A header line: its keyword and its value.
#[derive(Debug, Clone, PartialEq, Eq)]
pub struct Header(pub String, pub String);

/// A reference from one document to another part, placed by a transform.
#[derive(Debug, PartialEq)]
pub struct PartReference {
    /// The colour in which the referenced part is drawn.
    pub color: ColorReference,
    /// The 4x4 placement transform in column-major order, each entry as the
    /// bit pattern of an IEEE 754 single-precision number.
    pub matrix: [u32; 16],
    /// The name of the referenced part.
    pub name: PartAlias,
}

/// A line of a document.
#[derive(Debug, PartialEq)]
pub enum Command {
    /// A reference to another part.
    PartReference(PartReference),
    /// Any other line (geometry or meta-command), kept as written.
    Other(String),
}

/// A single LDraw document.
#[derive(Debug, PartialEq)]
pub struct Document {
    pub name: String,
    pub description: String,
    pub author: String,
    pub bfc: BfcCertification,
    pub headers: Vec<Header>,
    pub commands: Vec<Command>,
}

/// A document together with the subparts that it embeds, by name.
#[derive(Debug, PartialEq)]
pub struct MultipartDocument {
    pub body: Document,
    pub subparts: AliasMap<Document>,
}

/// The keys of the part references among `commands`, in order.
pub open spec fn command_keys(commands: Seq<Command>) -> Seq<Seq<char>>
    decreases commands.len(),
{
    if commands.len() == 0 {
        Seq::empty()
    } else {
        command_keys(commands.drop_last()) + match commands.last() {
            Command::PartReference(r) => seq![r.name.key()],
            Command::Other(_) => Seq::empty(),
        }
    }
}

/// The keys of the part references of a document.
pub open spec fn document_keys(d: Document) -> Seq<Seq<char>> {
    command_keys(d.commands@)
}

/// The concatenation of `f` over the elements of `s`.
pub open spec fn gather<T>(s: Seq<T>, f: spec_fn(T) -> Seq<Seq<char>>) -> Seq<Seq<char>>
    decreases s.len(),
{
    if s.len() == 0 {
        Seq::empty()
    } else {
        gather(s.drop_last(), f) + f(s.last())
    }
}

/// The keys of the part references of a multipart document, its subparts
/// included.
pub open spec fn multipart_keys(m: MultipartDocument) -> Seq<Seq<char>> {
    document_keys(m.body) + gather(m.subparts.seq(), |e: (PartAlias, Document)| document_keys(e.1))
}

/// Whatever `f` gives for one element of `s` is part of their concatenation.
pub proof fn lemma_gather_contains<T>(s: Seq<T>, f: spec_fn(T) -> Seq<Seq<char>>, j: int, k: Seq<char>)
    requires
        0 <= j < s.len(),
        f(s[j]).contains(k),
    ensures
        gather(s, f).contains(k),
    decreases s.len(),
{
    let g = gather(s, f);
    if j < s.len() - 1 {
        lemma_gather_contains(s.drop_last(), f, j, k);
        let prefix = gather(s.drop_last(), f);
        let m = choose|m: int| 0 <= m < prefix.len() && prefix[m] == k;
        assert(g[m] == k);
    } else {
        let prefix = gather(s.drop_last(), f);
        let last = f(s[j]);
        let m = choose|m: int| 0 <= m < last.len() && last[m] == k;
        assert(g[prefix.len() + m] == k);
    }
}

/// The key of every part reference among `commands` is among their keys.
pub proof fn lemma_command_keys_contains(commands: Seq<Command>, i: int)
    requires
        0 <= i < commands.len(),
        commands[i] is PartReference,
    ensures
        command_keys(commands).contains(commands[i]->PartReference_0.name.key()),
    decreases commands.len(),
{
    let k = commands[i]->PartReference_0.name.key();
    let g = command_keys(commands);
    let prefix = command_keys(commands.drop_last());
    if i < commands.len() - 1 {
        lemma_command_keys_contains(commands.drop_last(), i);
        let m = choose|m: int| 0 <= m < prefix.len() && prefix[m] == k;
        assert(g[m] == k);
    } else {
        assert(g[prefix.len() as int] == k);
    }
}

/// Each of the two parts of a concatenation is contained in it.
pub proof fn lemma_concat_contains(a: Seq<Seq<char>>, b: Seq<Seq<char>>, k: Seq<char>)
    ensures
        a.contains(k) ==> (a + b).contains(k),
        b.contains(k) ==> (a + b).contains(k),
{
    if a.contains(k) {
        let m = choose|m: int| 0 <= m < a.len() && a[m] == k;
        assert((a + b)[m] == k);
    }
    if b.contains(k) {
        let m = choose|m: int| 0 <= m < b.len() && b[m] == k;
        assert((a + b)[a.len() + m] == k);
    }
}

} // verus!
