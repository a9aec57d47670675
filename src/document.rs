//! The placeholder substitution engine: finds the generation markers of a
//! document, replaces each by its rendered declaration block, and adds the
//! collected attributes to the document's front matter.
use vstd::prelude::*;
use crate::registry::{fail, fault_of, Converter, ConvertError, ErrorKind, Fault, IndexModel};
use crate::render::{
    attributes_block, basetype_block, define_block, enum_block, flags_block, fnptr_block,
    handle_block, proto_block, struct_block, Rendered,
};
use crate::text::{
    chars_of, contains, contains_chars, ends_with, extend_chars, extend_str, find_from,
    first_index, is_prefix, is_suffix, matches_at, occurs_at, replace_all, replace_chars,
    slice_chars, starts_with, string_of,
};

verus! {

// ---------------------------------------------------------------------------
// The title field

/// A title field starts at `i`: a line `title: <text>` with non-empty text.
pub open spec fn title_at(doc: Seq<char>, i: int) -> Option<Seq<char>> {
    if occurs_at(doc, "\ntitle: "@, i) {
        let a = i + 8;
        match first_index(doc.skip(a), "\n"@) {
            Some(k) => if k > 0 {
                Some(doc.subrange(a, a + k))
            } else {
                None
            },
            None => None,
        }
    } else {
        None
    }
}

/// The first title field from position `i` on.
pub open spec fn title_from(doc: Seq<char>, i: int) -> Option<Seq<char>>
    decreases doc.len() - i,
{
    if i < 0 || i >= doc.len() {
        None
    } else {
        match title_at(doc, i) {
            Some(t) => Some(t),
            None => title_from(doc, i + 1),
        }
    }
}

/// The document's title: the text of its first title field.
pub open spec fn title_of(doc: Seq<char>) -> Option<Seq<char>> {
    title_from(doc, 0)
}

// ---------------------------------------------------------------------------
// Markers

/// The kinds of generation marker.
#[derive(PartialEq, Eq, Structural, Clone, Copy, Debug)]
pub enum MarkerKind {
    Struct,
    Flags,
    Proto,
    Enum,
    Basetype,
    Handle,
    Define,
    Funcpointer,
}

/// The path prefix that selects each kind.
pub open spec fn kind_prefix(k: MarkerKind) -> Seq<char> {
    match k {
        MarkerKind::Struct => "/api/structs/"@,
        MarkerKind::Flags => "/api/flags/"@,
        MarkerKind::Proto => "/api/protos/"@,
        MarkerKind::Enum => "/api/enums/"@,
        MarkerKind::Basetype => "/api/basetypes/"@,
        MarkerKind::Handle => "/api/handles/"@,
        MarkerKind::Define => "/api/defines/"@,
        MarkerKind::Funcpointer => "/api/funcpointers/"@,
    }
}

/// The symbol a path names for kind `k`: the rest after the kind's prefix,
/// without the `.adoc` extension.
pub open spec fn symbol_for(path: Seq<char>, k: MarkerKind) -> Option<Seq<char>> {
    let p = kind_prefix(k);
    if is_prefix(p, path) && is_suffix(".adoc"@, path) && p.len() + 5 <= path.len() {
        Some(path.subrange(p.len() as int, path.len() - 5))
    } else {
        None
    }
}

/// The kind and symbol a marker path selects; `None` for a path that
/// selects none, which is left in the document as it is.
pub open spec fn path_target(path: Seq<char>) -> Option<(MarkerKind, Seq<char>)> {
    if symbol_for(path, MarkerKind::Struct) is Some {
        Some((MarkerKind::Struct, symbol_for(path, MarkerKind::Struct)->0))
    } else if symbol_for(path, MarkerKind::Flags) is Some {
        Some((MarkerKind::Flags, symbol_for(path, MarkerKind::Flags)->0))
    } else if symbol_for(path, MarkerKind::Proto) is Some {
        Some((MarkerKind::Proto, symbol_for(path, MarkerKind::Proto)->0))
    } else if symbol_for(path, MarkerKind::Enum) is Some {
        Some((MarkerKind::Enum, symbol_for(path, MarkerKind::Enum)->0))
    } else if symbol_for(path, MarkerKind::Basetype) is Some {
        Some((MarkerKind::Basetype, symbol_for(path, MarkerKind::Basetype)->0))
    } else if symbol_for(path, MarkerKind::Handle) is Some {
        Some((MarkerKind::Handle, symbol_for(path, MarkerKind::Handle)->0))
    } else if symbol_for(path, MarkerKind::Define) is Some {
        Some((MarkerKind::Define, symbol_for(path, MarkerKind::Define)->0))
    } else if symbol_for(path, MarkerKind::Funcpointer) is Some {
        Some((MarkerKind::Funcpointer, symbol_for(path, MarkerKind::Funcpointer)->0))
    } else {
        None
    }
}

/// A marker starts at `i`: `[{generated}<path>]({generated}<path>)`, each path
/// within one line and up to the first delimiter that closes it. Gives the
/// two paths and where the marker ends.
#[verifier::opaque]
pub open spec fn marker_at(doc: Seq<char>, i: int) -> Option<(Seq<char>, Seq<char>, int)> {
    if occurs_at(doc, "[{generated}"@, i) {
        let a = i + 12;
        match first_index(doc.skip(a), "]({generated}"@) {
            Some(k1) => {
                let shown = doc.subrange(a, a + k1);
                let b = a + k1 + 13;
                match first_index(doc.skip(b), ")"@) {
                    Some(k2) => {
                        let target = doc.subrange(b, b + k2);
                        if !contains(shown, "\n"@) && !contains(target, "\n"@) {
                            Some((shown, target, b + k2 + 1))
                        } else {
                            None
                        }
                    },
                    None => None,
                }
            },
            None => None,
        }
    } else {
        None
    }
}

/// What replaces a marker: its block and the front-matter lines it adds;
/// `None` for a path that selects no kind.
#[verifier::opaque]
pub open spec fn marker_output(ix: IndexModel, fuel: nat, cfuel: nat, shown: Seq<char>, target: Seq<char>) -> Result<
    Option<(Seq<char>, Seq<char>)>,
    Fault,
> {
    let path = replace_all(shown, "\\_"@, "_"@);
    if path != target {
        Err((ErrorKind::MarkerMismatch, shown))
    } else {
        match path_target(path) {
            None => Ok(None),
            Some((k, sym)) => {
                let block: Rendered = match k {
                    MarkerKind::Struct => struct_block(ix, sym),
                    MarkerKind::Flags => flags_block(ix, sym),
                    MarkerKind::Proto => proto_block(ix, fuel, sym),
                    MarkerKind::Enum => enum_block(ix, cfuel, sym),
                    MarkerKind::Basetype => basetype_block(ix, sym),
                    MarkerKind::Handle => handle_block(ix, sym),
                    MarkerKind::Define => define_block(ix, sym),
                    MarkerKind::Funcpointer => fnptr_block(ix, sym),
                };
                match block {
                    Err(e) => Err(e),
                    Ok(b) => if k == MarkerKind::Proto {
                        match attributes_block(ix, fuel, sym) {
                            Err(e) => Err(e),
                            Ok(a) => Ok(Some((b, a))),
                        }
                    } else {
                        Ok(Some((b, Seq::empty())))
                    },
                }
            },
        }
    }
}

/// The outcome of scanning a document: the rewritten text, the collected
/// front-matter lines, and whether any marker was replaced.
pub struct Scan {
    pub out: Seq<char>,
    pub attrs: Seq<char>,
    pub replaced: bool,
}

pub open spec fn prepend(out: Seq<char>, attrs: Seq<char>, replaced: bool, r: Result<Scan, Fault>) -> Result<
    Scan,
    Fault,
> {
    match r {
        Err(e) => Err(e),
        Ok(s) => Ok(Scan { out: out + s.out, attrs: attrs + s.attrs, replaced: replaced || s.replaced }),
    }
}

/// Scans the document from position `i` to its end, left to right.
pub open spec fn scan(ix: IndexModel, fuel: nat, cfuel: nat, doc: Seq<char>, i: int) -> Result<Scan, Fault>
    decreases doc.len() - i,
{
    if i < 0 || i >= doc.len() {
        Ok(Scan { out: Seq::empty(), attrs: Seq::empty(), replaced: false })
    } else {
        match marker_at(doc, i) {
            None => prepend(seq![doc[i]], Seq::empty(), false, scan(ix, fuel, cfuel, doc, i + 1)),
            Some((shown, target, end)) => if end <= i || end > doc.len() {
                Err((ErrorKind::MarkerMismatch, shown))
            } else {
                match marker_output(ix, fuel, cfuel, shown, target) {
                    Err(e) => Err(e),
                    Ok(None) => prepend(
                        doc.subrange(i, end),
                        Seq::empty(),
                        false,
                        scan(ix, fuel, cfuel, doc, end),
                    ),
                    Ok(Some((b, a))) => prepend(b, a, true, scan(ix, fuel, cfuel, doc, end)),
                }
            },
        }
    }
}

/// The membership line for the document's title, where its symbol has
/// owners.
pub open spec fn parent_line(ix: IndexModel, doc: Seq<char>) -> Seq<char> {
    match title_of(doc) {
        Some(t) => if ix.parents.contains_key(t) {
            "parent: "@ + ix.parents[t] + "\n"@
        } else {
            Seq::empty()
        },
        None => Seq::empty(),
    }
}

/// The converted document: `None` where no marker was replaced, else the
/// text with every marker replaced and the collected lines put right after
/// the front matter's opening delimiter.
pub open spec fn converted(ix: IndexModel, fuel: nat, cfuel: nat, doc: Seq<char>) -> Result<
    Option<Seq<char>>,
    Fault,
> {
    match scan(ix, fuel, cfuel, doc, 0) {
        Err(e) => Err(e),
        Ok(s) => if !s.replaced {
            Ok(None)
        } else {
            let attrs = parent_line(ix, doc) + s.attrs;
            if attrs.len() == 0 {
                Ok(Some(s.out))
            } else if is_prefix("---\n"@, s.out) {
                Ok(Some("---\n"@ + attrs + s.out.skip(4)))
            } else {
                Err((ErrorKind::UnexpectedShape, "---"@))
            }
        },
    }
}

/// A document holds a generation marker.
pub open spec fn has_marker(doc: Seq<char>) -> bool {
    exists|i: int| 0 <= i < doc.len() && (#[trigger] marker_at(doc, i)) is Some
}

// ---------------------------------------------------------------------------
// Laws

proof fn lemma_scan_plain(ix: IndexModel, fuel: nat, cfuel: nat, doc: Seq<char>, i: int)
    requires
        0 <= i <= doc.len(),
        !has_marker(doc),
    ensures
        scan(ix, fuel, cfuel, doc, i) matches Ok(s) && !s.replaced && s.out == doc.skip(i),
    decreases doc.len() - i,
{
    if i < doc.len() {
        assert(marker_at(doc, i) is None);
        lemma_scan_plain(ix, fuel, cfuel, doc, i + 1);
        assert(seq![doc[i]] + doc.skip(i + 1) =~= doc.skip(i));
    } else {
        assert(doc.skip(i) =~= Seq::<char>::empty());
    }
}

/// A document without markers, such as one already converted, is left
/// unchanged: converting it again does nothing.
pub proof fn lemma_no_marker_no_change(ix: IndexModel, fuel: nat, cfuel: nat, doc: Seq<char>)
    requires
        !has_marker(doc),
    ensures
        converted(ix, fuel, cfuel, doc) == Ok::<Option<Seq<char>>, Fault>(None),
{
    lemma_scan_plain(ix, fuel, cfuel, doc, 0);
}

// ---------------------------------------------------------------------------
// Executable side

fn title_at_exec(doc: &[char], i: usize) -> (r: Option<Vec<char>>)
    requires
        i < doc@.len(),
    ensures
        r matches Some(t) ==> title_at(doc@, i as int) == Some(t@),
        r is None ==> title_at(doc@, i as int) is None,
{
    let n = doc.len();
    let head = chars_of("\ntitle: ");
    proof {
        reveal_strlit("\ntitle: ");
    }
    if !matches_at(doc, i, head.as_slice()) {
        return None;
    }
    let a = i + 8;
    let nl = chars_of("\n");
    let k = match find_from(doc, a, nl.as_slice()) {
        Some(k) => k,
        None => {
            return None;
        },
    };
    if k == 0 {
        return None;
    }
    Some(slice_chars(doc, a, a + k))
}

/// The document's title.
pub fn title_exec(doc: &[char]) -> (r: Option<Vec<char>>)
    ensures
        r matches Some(t) ==> title_of(doc@) == Some(t@),
        r is None ==> title_of(doc@) is None,
{
    let mut i: usize = 0;
    while i < doc.len()
        invariant
            i <= doc@.len(),
            title_of(doc@) == title_from(doc@, i as int),
        decreases doc@.len() - i,
    {
        match title_at_exec(doc, i) {
            Some(t) => {
                return Some(t);
            },
            None => {},
        }
        i += 1;
    }
    None
}

fn marker_at_exec(doc: &[char], i: usize) -> (r: Option<(Vec<char>, Vec<char>, usize)>)
    requires
        i < doc@.len(),
    ensures
        r matches Some((shown, target, end)) ==> marker_at(doc@, i as int) == Some((shown@, target@, end as int)),
        r is None ==> marker_at(doc@, i as int) is None,
{
    reveal(marker_at);
    let n = doc.len();
    let open = chars_of("[{generated}");
    let mid = chars_of("]({generated}");
    let close = chars_of(")");
    let nl = chars_of("\n");
    proof {
        reveal_strlit("[{generated}");
        reveal_strlit("]({generated}");
        reveal_strlit(")");
    }
    if !matches_at(doc, i, open.as_slice()) {
        return None;
    }
    let a = i + 12;
    let k1 = match find_from(doc, a, mid.as_slice()) {
        Some(k) => k,
        None => {
            return None;
        },
    };
    let shown = slice_chars(doc, a, a + k1);
    let b = a + k1 + 13;
    let k2 = match find_from(doc, b, close.as_slice()) {
        Some(k) => k,
        None => {
            return None;
        },
    };
    let target = slice_chars(doc, b, b + k2);
    if contains_chars(shown.as_slice(), nl.as_slice()) || contains_chars(target.as_slice(), nl.as_slice()) {
        return None;
    }
    Some((shown, target, b + k2 + 1))
}

fn symbol_for_exec(path: &[char], k: MarkerKind) -> (r: Option<Vec<char>>)
    ensures
        r matches Some(v) ==> symbol_for(path@, k) == Some(v@),
        r is None ==> symbol_for(path@, k) is None,
{
    let p = match k {
        MarkerKind::Struct => chars_of("/api/structs/"),
        MarkerKind::Flags => chars_of("/api/flags/"),
        MarkerKind::Proto => chars_of("/api/protos/"),
        MarkerKind::Enum => chars_of("/api/enums/"),
        MarkerKind::Basetype => chars_of("/api/basetypes/"),
        MarkerKind::Handle => chars_of("/api/handles/"),
        MarkerKind::Define => chars_of("/api/defines/"),
        MarkerKind::Funcpointer => chars_of("/api/funcpointers/"),
    };
    let ext = chars_of(".adoc");
    proof {
        reveal_strlit(".adoc");
    }
    if !starts_with(path, p.as_slice()) || !ends_with(path, ext.as_slice()) || path.len() < 5
        || p.len() > path.len() - 5 {
        return None;
    }
    Some(slice_chars(path, p.len(), path.len() - 5))
}

fn path_target_exec(path: &[char]) -> (r: Option<(MarkerKind, Vec<char>)>)
    ensures
        r matches Some((k, v)) ==> path_target(path@) == Some((k, v@)),
        r is None ==> path_target(path@) is None,
{
    if let Some(v) = symbol_for_exec(path, MarkerKind::Struct) {
        return Some((MarkerKind::Struct, v));
    }
    if let Some(v) = symbol_for_exec(path, MarkerKind::Flags) {
        return Some((MarkerKind::Flags, v));
    }
    if let Some(v) = symbol_for_exec(path, MarkerKind::Proto) {
        return Some((MarkerKind::Proto, v));
    }
    if let Some(v) = symbol_for_exec(path, MarkerKind::Enum) {
        return Some((MarkerKind::Enum, v));
    }
    if let Some(v) = symbol_for_exec(path, MarkerKind::Basetype) {
        return Some((MarkerKind::Basetype, v));
    }
    if let Some(v) = symbol_for_exec(path, MarkerKind::Handle) {
        return Some((MarkerKind::Handle, v));
    }
    if let Some(v) = symbol_for_exec(path, MarkerKind::Define) {
        return Some((MarkerKind::Define, v));
    }
    if let Some(v) = symbol_for_exec(path, MarkerKind::Funcpointer) {
        return Some((MarkerKind::Funcpointer, v));
    }
    None
}

proof fn lemma_prepend_assoc(
    o1: Seq<char>,
    a1: Seq<char>,
    r1: bool,
    o2: Seq<char>,
    a2: Seq<char>,
    r2: bool,
    x: Result<Scan, Fault>,
)
    ensures
        prepend(o1, a1, r1, prepend(o2, a2, r2, x)) == prepend(o1 + o2, a1 + a2, r1 || r2, x),
{
    match x {
        Ok(s) => {
            assert(o1 + (o2 + s.out) =~= (o1 + o2) + s.out);
            assert(a1 + (a2 + s.attrs) =~= (a1 + a2) + s.attrs);
        },
        Err(_) => {},
    }
}

impl Converter {
    fn marker_output_exec(&self, shown: &[char], target: &[char]) -> (r: Result<
        Option<(Vec<char>, Vec<char>)>,
        ConvertError,
    >)
        requires
            self.wf(),
        ensures
            match r {
                Ok(Some((b, a))) => marker_output(self@, self.command_count(), self.const_count(), shown@, target@) == Ok::<
                    Option<(Seq<char>, Seq<char>)>,
                    Fault,
                >(Some((b@, a@))),
                Ok(None) => marker_output(self@, self.command_count(), self.const_count(), shown@, target@) == Ok::<
                    Option<(Seq<char>, Seq<char>)>,
                    Fault,
                >(None),
                Err(e) => marker_output(self@, self.command_count(), self.const_count(), shown@, target@) == Err::<
                    Option<(Seq<char>, Seq<char>)>,
                    Fault,
                >(fault_of(e)),
            },
    {
        reveal(marker_output);
        let esc = chars_of("\\_");
        let plain = chars_of("_");
        let path = replace_chars(shown, esc.as_slice(), plain.as_slice());
        let same = path.len() == target.len() && starts_with(path.as_slice(), target);
        assert(path@.len() == target@.len() ==> path@.take(target@.len() as int) =~= path@);
        if !same {
            return Err(fail(ErrorKind::MarkerMismatch, shown));
        }
        let (k, sym) = match path_target_exec(path.as_slice()) {
            Some(t) => t,
            None => {
                return Ok(None);
            },
        };
        let name = string_of(sym.as_slice());
        let block = match k {
            MarkerKind::Struct => self.generate_api_struct(name.as_str()),
            MarkerKind::Flags => self.generate_flags(name.as_str()),
            MarkerKind::Proto => self.generate_fn_prototype(name.as_str()),
            MarkerKind::Enum => self.generate_enum(name.as_str()),
            MarkerKind::Basetype => self.generate_basetype(name.as_str()),
            MarkerKind::Handle => self.generate_handles(name.as_str()),
            MarkerKind::Define => self.generate_define(name.as_str()),
            MarkerKind::Funcpointer => self.generate_fn_ptr(name.as_str()),
        };
        let b = match block {
            Ok(b) => chars_of(b.as_str()),
            Err(e) => {
                return Err(e);
            },
        };
        if k == MarkerKind::Proto {
            match self.fn_attributes(name.as_str()) {
                Ok(a) => Ok(Some((b, chars_of(a.as_str())))),
                Err(e) => Err(e),
            }
        } else {
            Ok(Some((b, Vec::new())))
        }
    }

    fn scan_exec(&self, doc: &[char]) -> (r: Result<(Vec<char>, Vec<char>, bool), ConvertError>)
        requires
            self.wf(),
        ensures
            match r {
                Ok((o, a, rep)) => scan(self@, self.command_count(), self.const_count(), doc@, 0) == Ok::<Scan, Fault>(
                    Scan { out: o@, attrs: a@, replaced: rep },
                ),
                Err(e) => scan(self@, self.command_count(), self.const_count(), doc@, 0) == Err::<Scan, Fault>(
                    fault_of(e),
                ),
            },
    {
        let ghost ix = self@;
        let ghost fuel = self.command_count();
        let ghost cfuel = self.const_count();
        let mut out: Vec<char> = Vec::new();
        let mut attrs: Vec<char> = Vec::new();
        let mut replaced = false;
        let mut i: usize = 0;
        proof {
            match scan(ix, fuel, cfuel, doc@, 0) {
                Ok(s) => {
                    assert(Seq::<char>::empty() + s.out =~= s.out);
                    assert(Seq::<char>::empty() + s.attrs =~= s.attrs);
                },
                Err(_) => {},
            }
        }
        while i < doc.len()
            invariant
                self.wf(),
                ix == self@,
                fuel == self.command_count(),
                cfuel == self.const_count(),
                i <= doc@.len(),
                prepend(out@, attrs@, replaced, scan(ix, fuel, cfuel, doc@, i as int)) == scan(
                    ix,
                    fuel,
                    cfuel,
                    doc@,
                    0,
                ),
            decreases doc@.len() - i,
        {
            match marker_at_exec(doc, i) {
                None => {
                    proof {
                        lemma_prepend_assoc(
                            out@,
                            attrs@,
                            replaced,
                            seq![doc@[i as int]],
                            Seq::empty(),
                            false,
                            scan(ix, fuel, cfuel, doc@, i + 1),
                        );
                        assert(attrs@ + Seq::<char>::empty() =~= attrs@);
                    }
                    assert(scan(ix, fuel, cfuel, doc@, i as int) == prepend(
                        seq![doc@[i as int]],
                        Seq::empty(),
                        false,
                        scan(ix, fuel, cfuel, doc@, i + 1),
                    ));
                    let ghost o0 = out@;
                    out.push(doc[i]);
                    assert(out@ =~= o0 + seq![doc@[i as int]]);
                    i += 1;
                },
                Some((shown, target, end)) => {
                    if end <= i || end > doc.len() {
                        return Err(fail(ErrorKind::MarkerMismatch, shown.as_slice()));
                    }
                    match self.marker_output_exec(shown.as_slice(), target.as_slice()) {
                        Err(e) => {
                            return Err(e);
                        },
                        Ok(None) => {
                            let piece = slice_chars(doc, i, end);
                            proof {
                                lemma_prepend_assoc(
                                    out@,
                                    attrs@,
                                    replaced,
                                    piece@,
                                    Seq::empty(),
                                    false,
                                    scan(ix, fuel, cfuel, doc@, end as int),
                                );
                                assert(attrs@ + Seq::<char>::empty() =~= attrs@);
                            }
                            extend_chars(&mut out, piece.as_slice());
                            i = end;
                        },
                        Ok(Some((b, a))) => {
                            proof {
                                lemma_prepend_assoc(
                                    out@,
                                    attrs@,
                                    replaced,
                                    b@,
                                    a@,
                                    true,
                                    scan(ix, fuel, cfuel, doc@, end as int),
                                );
                            }
                            extend_chars(&mut out, b.as_slice());
                            extend_chars(&mut attrs, a.as_slice());
                            replaced = true;
                            i = end;
                        },
                    }
                },
            }
        }
        proof {
            assert(out@ + Seq::<char>::empty() =~= out@);
            assert(attrs@ + Seq::<char>::empty() =~= attrs@);
        }
        Ok((out, attrs, replaced))
    }

    /// Converts one document: replaces every generation marker by its
    /// rendered declaration block and puts the collected front-matter lines
    /// (membership of the titled symbol, attributes of the commands) right
    /// after the front matter's opening delimiter. `None` where no marker
    /// was replaced: the document is then left as it is.
    pub fn convert_text(&self, doc: &str) -> (r: Result<Option<String>, ConvertError>)
        requires
            self.wf(),
        ensures
            match r {
                Ok(Some(s)) => converted(self@, self.command_count(), self.const_count(), doc@) == Ok::<
                    Option<Seq<char>>,
                    Fault,
                >(Some(s@)),
                Ok(None) => converted(self@, self.command_count(), self.const_count(), doc@) == Ok::<
                    Option<Seq<char>>,
                    Fault,
                >(None),
                Err(e) => converted(self@, self.command_count(), self.const_count(), doc@) == Err::<
                    Option<Seq<char>>,
                    Fault,
                >(fault_of(e)),
            },
    {
        let d = chars_of(doc);
        let (out, attrs, replaced) = match self.scan_exec(d.as_slice()) {
            Ok(t) => t,
            Err(e) => {
                return Err(e);
            },
        };
        if !replaced {
            return Ok(None);
        }
        let mut all: Vec<char> = Vec::new();
        match title_exec(d.as_slice()) {
            Some(t) => {
                let ts = string_of(t.as_slice());
                match self.parents_of(ts.as_str()) {
                    Some(p) => {
                        extend_str(&mut all, "parent: ");
                        extend_str(&mut all, p.as_str());
                        extend_str(&mut all, "\n");
                    },
                    None => {},
                }
            },
            None => {},
        }
        extend_chars(&mut all, attrs.as_slice());
        proof {
            assert(Seq::<char>::empty() + attrs@ =~= attrs@);
        }
        if all.len() == 0 {
            return Ok(Some(string_of(out.as_slice())));
        }
        let fm = chars_of("---\n");
        proof {
            reveal_strlit("---\n");
        }
        if !starts_with(out.as_slice(), fm.as_slice()) {
            let c = chars_of("---");
            return Err(fail(ErrorKind::UnexpectedShape, c.as_slice()));
        }
        let mut r = chars_of("---\n");
        extend_chars(&mut r, all.as_slice());
        let body = slice_chars(out.as_slice(), 4, out.len());
        assert(body@ =~= out@.skip(4));
        extend_chars(&mut r, body.as_slice());
        Ok(Some(string_of(r.as_slice())))
    }

    /// Converts the document `file` in place, as `convert_text` says.
    /// Returns whether the text changed; on a failure it is left as it was.
    pub fn convert_file(&self, file: &mut String) -> (r: Result<bool, ConvertError>)
        requires
            self.wf(),
        ensures
            match r {
                Ok(true) => converted(self@, self.command_count(), self.const_count(), old(file)@) == Ok::<
                    Option<Seq<char>>,
                    Fault,
                >(Some(final(file)@)),
                Ok(false) => converted(self@, self.command_count(), self.const_count(), old(file)@) == Ok::<
                    Option<Seq<char>>,
                    Fault,
                >(None) && final(file)@ == old(file)@,
                Err(e) => converted(self@, self.command_count(), self.const_count(), old(file)@) == Err::<
                    Option<Seq<char>>,
                    Fault,
                >(fault_of(e)) && final(file)@ == old(file)@,
            },
    {
        match self.convert_text(file.as_str()) {
            Ok(Some(s)) => {
                *file = s;
                Ok(true)
            },
            Ok(None) => Ok(false),
            Err(e) => Err(e),
        }
    }
}

} // verus!
