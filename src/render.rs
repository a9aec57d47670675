//! The declaration synthesizer: for each kind of symbol, the block that
//! shows its source declaration beside the target-syntax declaration.
use vstd::prelude::*;
use crate::hex::{bit_value, hex_literal, hex_literal_exec, pow2};
use crate::naming::{
    convert_c_enum_init_value_to_rust, literal_type_of, literal_value_of, rust_type_chars,
    rust_type_of, snake_case, snake_of, try_variant_ident, variant_ident_of,
};
use crate::registry::{
    chain_end, const_end, fail, fault_of, value_view, ChainEnd, ConstEnd, CodeMarkup, CommandDef, CommandParam,
    Converter, ConvertError, EnumEntry, EnumGroup, EnumSpec, EnumsChild, ErrorKind, Fault,
    IndexModel, MemberMarkup, TypeDecl, TypeMember, TypeSpec, ValueView,
};
use crate::text::{
    chars_of, collapse_spaces, collapse_spaces_exec, extend_chars, extend_str, find_first, find_word,
    first_index, first_word_index, is_prefix, is_suffix, same_as, slice_chars, starts_with, string_of, trim,
    trim_exec,
};

verus! {

/// A rendering result as contracts speak of it.
pub type Rendered = Result<Seq<char>, Fault>;

/// `r` is the rendering `s`: the same text, or the same failure.
pub open spec fn agrees(r: Result<String, ConvertError>, s: Rendered) -> bool {
    match r {
        Ok(t) => s == Ok::<Seq<char>, Fault>(t@),
        Err(e) => s == Err::<Seq<char>, Fault>(fault_of(e)),
    }
}

pub open spec fn agrees_chars(r: Result<Vec<char>, ConvertError>, s: Rendered) -> bool {
    match r {
        Ok(t) => s == Ok::<Seq<char>, Fault>(t@),
        Err(e) => s == Err::<Seq<char>, Fault>(fault_of(e)),
    }
}

fn to_string_result(r: Result<Vec<char>, ConvertError>) -> (o: Result<String, ConvertError>)
    ensures
        forall|s: Rendered| agrees_chars(r, s) ==> agrees(o, s),
{
    match r {
        Ok(v) => Ok(string_of(v.as_slice())),
        Err(e) => Err(e),
    }
}

/// The two declarations side by side, each in its own fenced block.
pub open spec fn code_group(c: Seq<char>, rs: Seq<char>) -> Seq<char> {
    "::code-group\n```c [C]\n"@ + c + "\n```\n```rs [Rust]\n"@ + rs + "\n```\n::"@
}

fn code_group_exec(c: &[char], rs: &[char]) -> (r: Vec<char>)
    ensures
        r@ == code_group(c@, rs@),
{
    let mut r = chars_of("::code-group\n```c [C]\n");
    extend_chars(&mut r, c);
    extend_str(&mut r, "\n```\n```rs [Rust]\n");
    extend_chars(&mut r, rs);
    extend_str(&mut r, "\n```\n::");
    r
}

/// The lines joined with line breaks.
pub open spec fn join_lines(ls: Seq<Seq<char>>) -> Seq<char>
    decreases ls.len(),
{
    if ls.len() == 0 {
        Seq::empty()
    } else if ls.len() == 1 {
        ls[0]
    } else {
        join_lines(ls.drop_last()) + "\n"@ + ls.last()
    }
}

pub open spec fn views(ls: Seq<Vec<char>>) -> Seq<Seq<char>> {
    ls.map_values(|v: Vec<char>| v@)
}

pub fn join_exec(ls: &Vec<Vec<char>>) -> (r: Vec<char>)
    ensures
        r@ == join_lines(views(ls@)),
{
    let mut r: Vec<char> = Vec::new();
    let mut i: usize = 0;
    while i < ls.len()
        invariant
            i <= ls@.len(),
            r@ == join_lines(views(ls@.take(i as int))),
        decreases ls@.len() - i,
    {
        proof {
            assert(views(ls@.take(i + 1)).drop_last() =~= views(ls@.take(i as int)));
        }
        if i > 0 {
            extend_str(&mut r, "\n");
        }
        extend_chars(&mut r, ls[i].as_slice());
        i += 1;
    }
    proof {
        assert(ls@.take(i as int) =~= ls@);
    }
    r
}

/// `s` without the API's `Vk` type prefix, if it has it.
pub open spec fn strip_vk(s: Seq<char>) -> Option<Seq<char>> {
    if is_prefix("Vk"@, s) {
        Some(s.skip(2))
    } else {
        None
    }
}

fn strip_vk_exec(s: &[char]) -> (r: Option<Vec<char>>)
    ensures
        r matches Some(v) ==> strip_vk(s@) == Some(v@),
        r is None ==> strip_vk(s@) is None,
{
    let vk = chars_of("Vk");
    proof {
        reveal_strlit("Vk");
    }
    if starts_with(s, vk.as_slice()) {
        let v = slice_chars(s, 2, s.len());
        assert(v@ =~= s@.skip(2));
        Some(v)
    } else {
        None
    }
}

/// The failure for a symbol whose representation does not fit its kind.
pub open spec fn shape(name: Seq<char>) -> Rendered {
    Err((ErrorKind::UnexpectedShape, name))
}

/// The failure for a symbol that is not in the index.
pub open spec fn missing(name: Seq<char>) -> Rendered {
    Err((ErrorKind::NotFound, name))
}

/// The declaration code of a type, where it is given as code.
pub open spec fn code_of(t: TypeDecl) -> Option<Seq<char>> {
    match t.spec {
        TypeSpec::Code(c) => Some(c.code@),
        _ => None,
    }
}

/// A raw source block: the code alone, fenced.
pub open spec fn define_block(ix: IndexModel, name: Seq<char>) -> Rendered {
    if !ix.types.contains_key(name) {
        missing(name)
    } else {
        match code_of(ix.types[name]) {
            Some(c) => Ok("```c\n"@ + c + "\n```\n"@),
            None => shape(name),
        }
    }
}

/// A base type: the code alone, fenced.
pub open spec fn basetype_block(ix: IndexModel, name: Seq<char>) -> Rendered {
    if !ix.types.contains_key(name) {
        missing(name)
    } else {
        match code_of(ix.types[name]) {
            Some(c) => Ok("```c\n"@ + c + "\n```"@),
            None => shape(name),
        }
    }
}

/// A type that is another name for an API type: a typedef beside a target
/// alias whose form is given by `head` and `tail`.
pub open spec fn alias_block(name: Seq<char>, alias: Seq<char>, head: Seq<char>, tail: Seq<char>) -> Rendered {
    match (strip_vk(name), strip_vk(alias)) {
        (Some(rs_name), Some(rs_alias)) => Ok(
            code_group(
                "typedef "@ + alias + " "@ + name + ";"@,
                head + rs_name + " = vk::"@ + rs_alias + tail,
            ),
        ),
        _ => shape(name),
    }
}

/// An opaque handle.
pub open spec fn handle_block(ix: IndexModel, name: Seq<char>) -> Rendered {
    if !ix.types.contains_key(name) {
        missing(name)
    } else {
        let t = ix.types[name];
        match t.alias {
            Some(a) => alias_block(name, a@, "type "@, ";"@),
            None => match (code_of(t), strip_vk(name)) {
                (Some(c), Some(rs_name)) => Ok(
                    code_group(c, "#[repr(transparent)]\npub struct "@ + rs_name + "(_);"@),
                ),
                _ => shape(name),
            },
        }
    }
}

/// The first `Type` and `Name` markup of a code declaration.
pub open spec fn first_type_markup(ms: Seq<CodeMarkup>) -> Option<Seq<char>>
    decreases ms.len(),
{
    if ms.len() == 0 {
        None
    } else {
        match ms[0] {
            CodeMarkup::Type(n) => Some(n@),
            _ => first_type_markup(ms.skip(1)),
        }
    }
}

/// The target width type of a bitmask's underlying type.
pub open spec fn flags_width(t: Seq<char>) -> Option<Seq<char>> {
    if t == "VkFlags"@ {
        Some("u32"@)
    } else if t == "VkFlags64"@ {
        Some("u64"@)
    } else {
        None
    }
}

/// A bitmask type.
pub open spec fn flags_block(ix: IndexModel, name: Seq<char>) -> Rendered {
    if !ix.types.contains_key(name) {
        missing(name)
    } else {
        let t = ix.types[name];
        match t.alias {
            Some(a) => alias_block(name, a@, "pub type "@, ";"@),
            None => match t.spec {
                TypeSpec::Code(code) => {
                    let ms = code.markup@;
                    match (
                        first_type_markup(ms),
                        crate::registry::first_name_markup(ms),
                    ) {
                        (Some(ty), Some(n)) => if ms.len() == 2 && flags_width(ty) is Some
                            && n.len() >= 2 {
                            Ok(
                                code_group(
                                    code.code@,
                                    "pub struct "@ + n.skip(2) + "("@ + flags_width(ty)->0
                                        + ");"@,
                                ),
                            )
                        } else {
                            shape(name)
                        },
                        _ => shape(name),
                    }
                },
                _ => shape(name),
            },
        }
    }
}

/// The first `Name` markup of a member.
pub open spec fn member_name(ms: Seq<MemberMarkup>) -> Option<Seq<char>>
    decreases ms.len(),
{
    if ms.len() == 0 {
        None
    } else {
        match ms[0] {
            MemberMarkup::Name(n) => Some(n@),
            _ => member_name(ms.skip(1)),
        }
    }
}

/// The first `Comment` markup of a member.
pub open spec fn member_comment(ms: Seq<MemberMarkup>) -> Option<Seq<char>>
    decreases ms.len(),
{
    if ms.len() == 0 {
        None
    } else {
        match ms[0] {
            MemberMarkup::Comment(n) => Some(n@),
            _ => member_comment(ms.skip(1)),
        }
    }
}

/// The source type of a declaration: what stands before the declared name
/// (its first whole-word occurrence), with runs of spaces shortened and the
/// ends trimmed.
#[verifier::opaque]
pub open spec fn declared_type(code: Seq<char>, name: Seq<char>) -> Option<Seq<char>> {
    match first_word_index(code, name) {
        Some(i) => Some(trim(collapse_spaces(code.take(i)))),
        None => None,
    }
}

/// The fixed array length written right after the declared name, if any.
#[verifier::opaque]
pub open spec fn array_len(code: Seq<char>, name: Seq<char>) -> Option<Seq<char>> {
    match first_word_index(code, name) {
        Some(i) => {
            let rest = code.skip(i + name.len());
            if rest.len() > 0 && rest[0] == '[' {
                match first_index(rest, "]"@) {
                    Some(j) => if 1 <= j {
                        Some(rest.subrange(1, j))
                    } else {
                        None
                    },
                    None => None,
                }
            } else {
                None
            }
        },
        None => None,
    }
}

/// An array length in the target syntax: API constants are referenced in
/// the `vk` namespace.
pub open spec fn rust_len_of(n: Seq<char>) -> Seq<char> {
    if is_prefix("VK_"@, n) {
        "vk::"@ + n.skip(3)
    } else {
        n
    }
}

/// The target type of a member declared with source type `t`.
pub open spec fn member_rust_type(code: Seq<char>, name: Seq<char>, t: Seq<char>) -> Seq<char> {
    match array_len(code, name) {
        Some(n) => "["@ + rust_type_of(t) + "; "@ + rust_len_of(n) + "]"@,
        None => rust_type_of(t),
    }
}

/// The source line of an aggregate member.
pub open spec fn member_c_line(m: TypeMember) -> Seq<char> {
    match m {
        TypeMember::Comment(c) => "    // "@ + c@ + ";"@,
        TypeMember::Definition(d) => "    "@ + collapse_spaces(d.code@) + ";"@,
    }
}

pub open spec fn members_c_lines(ms: Seq<TypeMember>) -> Seq<Seq<char>>
    decreases ms.len(),
{
    if ms.len() == 0 {
        Seq::empty()
    } else {
        members_c_lines(ms.drop_last()).push(member_c_line(ms.last()))
    }
}

/// The target line of an aggregate member: its name in the target naming
/// convention, its translated type and its trailing comment.
pub open spec fn member_rs_line(m: TypeMember, owner: Seq<char>) -> Result<Seq<char>, Fault> {
    match m {
        TypeMember::Comment(c) => Ok("    /// "@ + c@ + ","@),
        TypeMember::Definition(d) => {
            let name = match member_name(d.markup@) {
                Some(n) => n,
                None => "unknown"@,
            };
            match declared_type(d.code@, name) {
                None => Err((ErrorKind::UnexpectedShape, owner)),
                Some(t) => {
                    let comment = match member_comment(d.markup@) {
                        Some(c) => if c.len() > 0 {
                            " // "@ + c
                        } else {
                            Seq::empty()
                        },
                        None => Seq::empty(),
                    };
                    Ok(
                        "    "@ + snake_of(name) + ": "@ + member_rust_type(d.code@, name, t) + comment
                            + ","@,
                    )
                },
            }
        },
    }
}

pub open spec fn members_rs_lines(ms: Seq<TypeMember>, owner: Seq<char>) -> Result<
    Seq<Seq<char>>,
    Fault,
>
    decreases ms.len(),
{
    if ms.len() == 0 {
        Ok(Seq::empty())
    } else {
        match members_rs_lines(ms.drop_last(), owner) {
            Err(e) => Err(e),
            Ok(ls) => match member_rs_line(ms.last(), owner) {
                Err(e) => Err(e),
                Ok(l) => Ok(ls.push(l)),
            },
        }
    }
}

/// An aggregate: its members line by line in both syntaxes, or, for an
/// alias, the two aliases.
pub open spec fn struct_block(ix: IndexModel, name: Seq<char>) -> Rendered {
    if !ix.types.contains_key(name) {
        missing(name)
    } else {
        let t = ix.types[name];
        match t.alias {
            Some(a) => alias_block(name, a@, "type "@, ";"@),
            None => match t.spec {
                TypeSpec::Members(ms) => match strip_vk(name) {
                    None => shape(name),
                    Some(rs_name) => match members_rs_lines(ms@, name) {
                        Err(e) => Err(e),
                        Ok(rl) => Ok(
                            code_group(
                                "typedef struct "@ + name + " {\n"@ + join_lines(
                                    members_c_lines(ms@),
                                ) + "\n} "@ + name + ";"@,
                                "pub struct "@ + rs_name + " {\n"@ + join_lines(rl) + "\n}"@,
                            ),
                        ),
                    },
                },
                _ => shape(name),
            },
        }
    }
}

fn member_name_exec(ms: &Vec<MemberMarkup>) -> (r: Option<Vec<char>>)
    ensures
        r matches Some(s) ==> member_name(ms@) == Some(s@),
        r is None ==> member_name(ms@) is None,
{
    let mut i: usize = 0;
    assert(ms@.skip(0) =~= ms@);
    while i < ms.len()
        invariant
            i <= ms@.len(),
            member_name(ms@) == member_name(ms@.skip(i as int)),
        decreases ms@.len() - i,
    {
        assert(ms@.skip(i as int).skip(1) =~= ms@.skip(i + 1));
        match &ms[i] {
            MemberMarkup::Name(n) => {
                return Some(copy_chars(n));
            },
            _ => {},
        }
        i += 1;
    }
    None
}

fn member_comment_exec(ms: &Vec<MemberMarkup>) -> (r: Option<Vec<char>>)
    ensures
        r matches Some(s) ==> member_comment(ms@) == Some(s@),
        r is None ==> member_comment(ms@) is None,
{
    let mut i: usize = 0;
    assert(ms@.skip(0) =~= ms@);
    while i < ms.len()
        invariant
            i <= ms@.len(),
            member_comment(ms@) == member_comment(ms@.skip(i as int)),
        decreases ms@.len() - i,
    {
        assert(ms@.skip(i as int).skip(1) =~= ms@.skip(i + 1));
        match &ms[i] {
            MemberMarkup::Comment(n) => {
                return Some(copy_chars(n));
            },
            _ => {},
        }
        i += 1;
    }
    None
}

/// The source type of a declaration, as `declared_type` says.
pub fn declared_type_exec(code: &[char], name: &[char]) -> (r: Option<Vec<char>>)
    ensures
        r matches Some(t) ==> declared_type(code@, name@) == Some(t@),
        r is None ==> declared_type(code@, name@) is None,
{
    reveal(declared_type);
    match find_word(code, name) {
        Some(i) => {
            let head = slice_chars(code, 0, i);
            assert(head@ =~= code@.take(i as int));
            let c = collapse_spaces_exec(head.as_slice());
            Some(trim_exec(c.as_slice()))
        },
        None => None,
    }
}

fn array_len_exec(code: &[char], name: &[char]) -> (r: Option<Vec<char>>)
    ensures
        r matches Some(n) ==> array_len(code@, name@) == Some(n@),
        r is None ==> array_len(code@, name@) is None,
{
    reveal(array_len);
    let close = chars_of("]");
    let total = code.len();
    let i = match find_word(code, name) {
        Some(i) => i,
        None => {
            return None;
        },
    };
    let after = i + name.len();
    let rest = slice_chars(code, after, code.len());
    assert(rest@ =~= code@.skip(after as int));
    if rest.len() == 0 || rest[0] != '[' {
        return None;
    }
    match find_first(rest.as_slice(), close.as_slice()) {
        Some(j) => {
            if j >= 1 {
                Some(slice_chars(rest.as_slice(), 1, j))
            } else {
                None
            }
        },
        None => None,
    }
}

fn member_rust_type_exec(code: &[char], name: &[char], t: &[char]) -> (r: Vec<char>)
    ensures
        r@ == member_rust_type(code@, name@, t@),
{
    let rt = rust_type_chars(t);
    match array_len_exec(code, name) {
        Some(n) => {
            let mut r = chars_of("[");
            extend_chars(&mut r, rt.as_slice());
            extend_str(&mut r, "; ");
            let vk = chars_of("VK_");
            proof {
                reveal_strlit("VK_");
            }
            let mut len: Vec<char> = Vec::new();
            if starts_with(n.as_slice(), vk.as_slice()) {
                extend_str(&mut len, "vk::");
                let tail = slice_chars(n.as_slice(), 3, n.len());
                extend_chars(&mut len, tail.as_slice());
                assert(len@ =~= "vk::"@ + n@.skip(3));
            } else {
                extend_chars(&mut len, n.as_slice());
                assert(len@ =~= n@);
            }
            extend_chars(&mut r, len.as_slice());
            extend_str(&mut r, "]");
            r
        },
        None => rt,
    }
}

fn member_c_line_exec(m: &TypeMember) -> (r: Vec<char>)
    ensures
        r@ == member_c_line(*m),
{
    match m {
        TypeMember::Comment(c) => {
            let mut r = chars_of("    // ");
            extend_str(&mut r, c.as_str());
            extend_str(&mut r, ";");
            r
        },
        TypeMember::Definition(d) => {
            let code = copy_chars(&d.code);
            let mut r = chars_of("    ");
            let c = collapse_spaces_exec(code.as_slice());
            extend_chars(&mut r, c.as_slice());
            extend_str(&mut r, ";");
            r
        },
    }
}

fn member_rs_line_exec(m: &TypeMember, owner: &[char]) -> (r: Result<Vec<char>, ConvertError>)
    ensures
        agrees_chars(r, member_rs_line(*m, owner@)),
{
    match m {
        TypeMember::Comment(c) => {
            let mut r = chars_of("    /// ");
            extend_str(&mut r, c.as_str());
            extend_str(&mut r, ",");
            Ok(r)
        },
        TypeMember::Definition(d) => {
            let name = match member_name_exec(&d.markup) {
                Some(n) => n,
                None => chars_of("unknown"),
            };
            let code = copy_chars(&d.code);
            let t = match declared_type_exec(code.as_slice(), name.as_slice()) {
                Some(t) => t,
                None => {
                    return Err(fail(ErrorKind::UnexpectedShape, owner));
                },
            };
            let mut r = chars_of("    ");
            let sn = snake_case(name.as_slice());
            extend_chars(&mut r, sn.as_slice());
            extend_str(&mut r, ": ");
            let rt = member_rust_type_exec(code.as_slice(), name.as_slice(), t.as_slice());
            extend_chars(&mut r, rt.as_slice());
            let mut cm: Vec<char> = Vec::new();
            match member_comment_exec(&d.markup) {
                Some(c) => {
                    if c.len() > 0 {
                        extend_str(&mut cm, " // ");
                        extend_chars(&mut cm, c.as_slice());
                    }
                },
                None => {},
            }
            proof {
                assert(Seq::<char>::empty() + " // "@ =~= " // "@);
            }
            extend_chars(&mut r, cm.as_slice());
            extend_str(&mut r, ",");
            Ok(r)
        },
    }
}

fn members_lines_exec(ms: &Vec<TypeMember>, owner: &[char]) -> (r: Result<
    (Vec<Vec<char>>, Vec<Vec<char>>),
    ConvertError,
>)
    ensures
        r matches Ok((c, rs)) ==> views(c@) == members_c_lines(ms@) && members_rs_lines(
            ms@,
            owner@,
        ) == Ok::<Seq<Seq<char>>, Fault>(views(rs@)),
        r matches Err(e) ==> members_rs_lines(ms@, owner@) == Err::<Seq<Seq<char>>, Fault>(
            fault_of(e),
        ),
{
    let mut c_lines: Vec<Vec<char>> = Vec::new();
    let mut rs_lines: Vec<Vec<char>> = Vec::new();
    let mut i: usize = 0;
    proof {
        assert(ms@.take(0) =~= Seq::<TypeMember>::empty());
        assert(views(rs_lines@) =~= Seq::<Seq<char>>::empty());
        assert(views(c_lines@) =~= Seq::<Seq<char>>::empty());
    }
    while i < ms.len()
        invariant
            i <= ms@.len(),
            views(c_lines@) == members_c_lines(ms@.take(i as int)),
            members_rs_lines(ms@.take(i as int), owner@) == Ok::<Seq<Seq<char>>, Fault>(
                views(rs_lines@),
            ),
        decreases ms@.len() - i,
    {
        proof {
            assert(ms@.take(i + 1).drop_last() =~= ms@.take(i as int));
        }
        let cl = member_c_line_exec(&ms[i]);
        let ghost before_c = c_lines@;
        c_lines.push(cl);
        assert(views(c_lines@) =~= views(before_c).push(cl@));
        match member_rs_line_exec(&ms[i], owner) {
            Ok(l) => {
                let ghost before_r = rs_lines@;
                rs_lines.push(l);
                assert(views(rs_lines@) =~= views(before_r).push(l@));
            },
            Err(e) => {
                proof {
                    lemma_members_err(ms@, owner@, i + 1, fault_of(e));
                }
                return Err(e);
            },
        }
        i += 1;
    }
    proof {
        assert(ms@.take(i as int) =~= ms@);
    }
    Ok((c_lines, rs_lines))
}

proof fn lemma_members_err(ms: Seq<TypeMember>, owner: Seq<char>, k: int, e: Fault)
    requires
        0 <= k <= ms.len(),
        members_rs_lines(ms.take(k), owner) == Err::<Seq<Seq<char>>, Fault>(e),
    ensures
        members_rs_lines(ms, owner) == Err::<Seq<Seq<char>>, Fault>(e),
    decreases ms.len() - k,
{
    if k < ms.len() {
        assert(ms.take(k + 1).drop_last() =~= ms.take(k));
        lemma_members_err(ms, owner, k + 1, e);
    } else {
        assert(ms.take(k) =~= ms);
    }
}

// ---------------------------------------------------------------------------
// Enumerations

/// The source line of an enumeration entry.
pub open spec fn enum_c_line(c: EnumsChild, wide: Option<u32>, group: Seq<char>) -> Result<
    Seq<char>,
    Fault,
> {
    match c {
        EnumsChild::Unused => Ok("    ,"@),
        EnumsChild::Comment(t) => Ok("    // "@ + t@ + ","@),
        EnumsChild::Enum(d) => match d.spec {
            EnumSpec::Reserved => Ok("    "@ + d.name@ + ","@),
            EnumSpec::Alias { alias, extends } => if extends is None {
                Ok("    "@ + d.name@ + " = "@ + alias@ + ","@)
            } else {
                Err((ErrorKind::UnexpectedShape, group))
            },
            EnumSpec::Bitpos { bitpos, extends } => if extends is None && 0 <= bitpos < 64 && (
            wide is None || wide == Some(64u32)) {
                Ok(
                    "    "@ + d.name@ + " = "@ + hex_literal(pow2(bitpos as nat)) + (if wide is Some {
                        "ULL"@
                    } else {
                        Seq::empty()
                    }) + ","@,
                )
            } else {
                Err((ErrorKind::UnexpectedShape, group))
            },
            EnumSpec::Value { value, extends } => if extends is None {
                Ok("    "@ + d.name@ + " = "@ + value@ + ","@)
            } else {
                Err((ErrorKind::UnexpectedShape, group))
            },
            EnumSpec::Offset => Err((ErrorKind::UnexpectedShape, group)),
        },
    }
}

pub open spec fn enum_c_lines(cs: Seq<EnumsChild>, wide: Option<u32>, group: Seq<char>) -> Result<
    Seq<Seq<char>>,
    Fault,
>
    decreases cs.len(),
{
    if cs.len() == 0 {
        Ok(Seq::empty())
    } else {
        match enum_c_lines(cs.drop_last(), wide, group) {
            Err(e) => Err(e),
            Ok(ls) => match enum_c_line(cs.last(), wide, group) {
                Err(e) => Err(e),
                Ok(l) => Ok(ls.push(l)),
            },
        }
    }
}

/// The identifier of a variant, or the failure for a name that does not
/// follow its group's convention.
pub open spec fn ident_or_fault(group: Seq<char>, variant: Seq<char>) -> Result<Seq<char>, Fault> {
    match variant_ident_of(group, variant) {
        Some(i) => Ok(i),
        None => Err((ErrorKind::UnresolvableIdentifier, variant)),
    }
}

/// The target line of an enumeration entry; deprecated and unused entries
/// have none.
pub open spec fn enum_rs_line(c: EnumsChild, group: Seq<char>) -> Result<Option<Seq<char>>, Fault> {
    match c {
        EnumsChild::Unused => Ok(None),
        EnumsChild::Comment(t) => Ok(Some("    // "@ + t@)),
        EnumsChild::Enum(d) => if d.deprecated {
            Ok(None)
        } else {
            match d.spec {
                EnumSpec::Reserved => match ident_or_fault(group, d.name@) {
                    Ok(i) => Ok(Some("    "@ + i)),
                    Err(e) => Err(e),
                },
                EnumSpec::Alias { alias, .. } => match ident_or_fault(group, alias@) {
                    Err(e) => Err(e),
                    Ok(a) => match ident_or_fault(group, d.name@) {
                        Err(e) => Err(e),
                        Ok(i) => Ok(Some("    pub const "@ + i + ": Self = Self::"@ + a + ";"@)),
                    },
                },
                EnumSpec::Bitpos { bitpos, .. } => match ident_or_fault(group, d.name@) {
                    Err(e) => Err(e),
                    Ok(i) => if !(0 <= bitpos < 64) {
                        Err((ErrorKind::UnexpectedShape, group))
                    } else {
                        Ok(
                        Some(
                            "    pub const "@ + i + ": Self = "@ + hex_literal(pow2(bitpos as nat))
                                + ";"@,
                        ),
                    )
                    },
                },
                EnumSpec::Value { value, .. } => match ident_or_fault(group, d.name@) {
                    Err(e) => Err(e),
                    Ok(i) => Ok(Some("    pub const "@ + i + ": Self = "@ + value@ + ";"@)),
                },
                _ => Err((ErrorKind::UnexpectedShape, group)),
            }
        },
    }
}

pub open spec fn enum_rs_lines(cs: Seq<EnumsChild>, group: Seq<char>) -> Result<
    Seq<Seq<char>>,
    Fault,
>
    decreases cs.len(),
{
    if cs.len() == 0 {
        Ok(Seq::empty())
    } else {
        match enum_rs_lines(cs.drop_last(), group) {
            Err(e) => Err(e),
            Ok(ls) => match enum_rs_line(cs.last(), group) {
                Err(e) => Err(e),
                Ok(None) => Ok(ls),
                Ok(Some(l)) => Ok(ls.push(l)),
            },
        }
    }
}

/// An enumeration group: every entry in source form, and the surviving
/// variants as associated constants.
pub open spec fn group_block(name: Seq<char>, g: EnumGroup) -> Rendered {
    match strip_vk(name) {
        None => shape(name),
        Some(rs_name) => match enum_c_lines(g.children@, g.bitwidth, name) {
            Err(e) => Err(e),
            Ok(cl) => match enum_rs_lines(g.children@, name) {
                Err(e) => Err(e),
                Ok(rl) => Ok(
                    code_group(
                        "typedef enum "@ + name + " {\n"@ + join_lines(cl) + "\n} "@ + name + ";"@,
                        "pub struct "@ + rs_name + "("@ + (if g.bitwidth is Some {
                            "u64"@
                        } else {
                            "u32"@
                        }) + ");\nimpl "@ + rs_name + " {\n"@ + join_lines(rl) + "\n}"@,
                    ),
                ),
            },
        },
    }
}

/// `s` without the API's `VK_` constant prefix, if it has it.
pub open spec fn strip_vk_const(s: Seq<char>) -> Option<Seq<char>> {
    if is_prefix("VK_"@, s) {
        Some(s.skip(3))
    } else {
        None
    }
}

/// A manifest constant: its define beside a typed constant, the type
/// inferred from the literal (for an alias, from the aliased literal).
pub open spec fn const_block(ix: IndexModel, cfuel: nat, name: Seq<char>) -> Rendered {
    match strip_vk_const(name) {
        None => shape(name),
        Some(rs_name) => match ix.consts[name] {
            ValueView::Value(v, false) => Ok(
                code_group(
                    "#define "@ + name + " "@ + v,
                    "const "@ + rs_name + ": "@ + literal_type_of(v) + " = "@ + literal_value_of(v)
                        + ";"@,
                ),
            ),
            ValueView::Alias(a, _) => match const_literal(ix.consts, a, cfuel, name) {
                Err(e) => Err(e),
                Ok(v) => match strip_vk_const(a) {
                    Some(rs_alias) => Ok(
                        code_group(
                            "#define "@ + name + " "@ + a,
                            "const "@ + rs_name + ": "@ + literal_type_of(v) + " = vk::"@ + rs_alias
                                + ";"@,
                        ),
                    ),
                    None => shape(name),
                },
            },
            _ => shape(name),
        },
    }
}

/// The literal that the constant `a` stands for, following its aliases at
/// most `cfuel` times; failures are reported for the constant `owner` being
/// rendered.
pub open spec fn const_literal(
    consts: Map<Seq<char>, ValueView>,
    a: Seq<char>,
    cfuel: nat,
    owner: Seq<char>,
) -> Rendered {
    match const_end(consts, a, cfuel) {
        ConstEnd::Found(v) => Ok(v),
        ConstEnd::Missing(m) => missing(m),
        ConstEnd::TooLong => Err((ErrorKind::CycleDetected, owner)),
        ConstEnd::NotValue => shape(owner),
    }
}

/// An enumeration group, a manifest constant, or an alias of either.
pub open spec fn enum_block(ix: IndexModel, cfuel: nat, name: Seq<char>) -> Rendered {
    if ix.enums.contains_key(name) {
        group_block(name, ix.enums[name])
    } else if ix.consts.contains_key(name) {
        const_block(ix, cfuel, name)
    } else if ix.types.contains_key(name) {
        match ix.types[name].alias {
            Some(a) => match (strip_vk(name), strip_vk(a@)) {
                (Some(rs_name), Some(rs_alias)) => Ok(
                    code_group(
                        "#define "@ + name + " "@ + a@,
                        "const "@ + rs_name + ": _ = vk::"@ + rs_alias + ";"@,
                    ),
                ),
                _ => shape(name),
            },
            None => shape(name),
        }
    } else {
        missing(name)
    }
}

fn ident_exec(group: &[char], variant: &String) -> (r: Result<Vec<char>, ConvertError>)
    ensures
        agrees_chars(r, ident_or_fault(group@, variant@)),
{
    let g = string_of(group);
    match try_variant_ident(g.as_str(), variant.as_str()) {
        Some(s) => Ok(chars_of(s.as_str())),
        None => {
            let v = copy_chars(variant);
            Err(fail(ErrorKind::UnresolvableIdentifier, v.as_slice()))
        },
    }
}

fn enum_c_line_exec(c: &EnumsChild, wide: Option<u32>, group: &[char]) -> (r: Result<
    Vec<char>,
    ConvertError,
>)
    ensures
        agrees_chars(r, enum_c_line(*c, wide, group@)),
{
    match c {
        EnumsChild::Unused => Ok(chars_of("    ,")),
        EnumsChild::Comment(t) => {
            let mut r = chars_of("    // ");
            extend_str(&mut r, t.as_str());
            extend_str(&mut r, ",");
            Ok(r)
        },
        EnumsChild::Enum(d) => {
            let mut r = chars_of("    ");
            extend_str(&mut r, d.name.as_str());
            match &d.spec {
                EnumSpec::Reserved => {},
                EnumSpec::Alias { alias, extends } => {
                    if extends.is_some() {
                        return Err(fail(ErrorKind::UnexpectedShape, group));
                    }
                    extend_str(&mut r, " = ");
                    extend_str(&mut r, alias.as_str());
                },
                EnumSpec::Bitpos { bitpos, extends } => {
                    let wide_ok = match wide {
                        Some(w) => w == 64,
                        None => true,
                    };
                    if extends.is_some() || *bitpos < 0 || *bitpos >= 64 || !wide_ok {
                        return Err(fail(ErrorKind::UnexpectedShape, group));
                    }
                    extend_str(&mut r, " = ");
                    let h = hex_literal_exec(bit_value(*bitpos as u32));
                    extend_chars(&mut r, h.as_slice());
                    let mut suffix: Vec<char> = Vec::new();
                    if wide.is_some() {
                        extend_str(&mut suffix, "ULL");
                        assert(suffix@ =~= "ULL"@);
                    }
                    extend_chars(&mut r, suffix.as_slice());
                },
                EnumSpec::Value { value, extends } => {
                    if extends.is_some() {
                        return Err(fail(ErrorKind::UnexpectedShape, group));
                    }
                    extend_str(&mut r, " = ");
                    extend_str(&mut r, value.as_str());
                },
                EnumSpec::Offset => {
                    return Err(fail(ErrorKind::UnexpectedShape, group));
                },
            }
            extend_str(&mut r, ",");
            Ok(r)
        },
    }
}

fn enum_rs_line_exec(c: &EnumsChild, group: &[char]) -> (r: Result<
    Option<Vec<char>>,
    ConvertError,
>)
    ensures
        match r {
            Ok(Some(l)) => enum_rs_line(*c, group@) == Ok::<Option<Seq<char>>, Fault>(Some(l@)),
            Ok(None) => enum_rs_line(*c, group@) == Ok::<Option<Seq<char>>, Fault>(None),
            Err(e) => enum_rs_line(*c, group@) == Err::<Option<Seq<char>>, Fault>(fault_of(e)),
        },
{
    match c {
        EnumsChild::Unused => Ok(None),
        EnumsChild::Comment(t) => {
            let mut r = chars_of("    // ");
            extend_str(&mut r, t.as_str());
            Ok(Some(r))
        },
        EnumsChild::Enum(d) => {
            if d.deprecated {
                return Ok(None);
            }
            match &d.spec {
                EnumSpec::Reserved => {
                    let i = match ident_exec(group, &d.name) {
                        Ok(i) => i,
                        Err(e) => {
                            return Err(e);
                        },
                    };
                    let mut r = chars_of("    ");
                    extend_chars(&mut r, i.as_slice());
                    Ok(Some(r))
                },
                EnumSpec::Alias { alias, .. } => {
                    let a = match ident_exec(group, alias) {
                        Ok(i) => i,
                        Err(e) => {
                            return Err(e);
                        },
                    };
                    let i = match ident_exec(group, &d.name) {
                        Ok(i) => i,
                        Err(e) => {
                            return Err(e);
                        },
                    };
                    let mut r = chars_of("    pub const ");
                    extend_chars(&mut r, i.as_slice());
                    extend_str(&mut r, ": Self = Self::");
                    extend_chars(&mut r, a.as_slice());
                    extend_str(&mut r, ";");
                    Ok(Some(r))
                },
                EnumSpec::Bitpos { bitpos, .. } => {
                    let i = match ident_exec(group, &d.name) {
                        Ok(i) => i,
                        Err(e) => {
                            return Err(e);
                        },
                    };
                    if *bitpos < 0 || *bitpos >= 64 {
                        return Err(fail(ErrorKind::UnexpectedShape, group));
                    }
                    let mut r = chars_of("    pub const ");
                    extend_chars(&mut r, i.as_slice());
                    extend_str(&mut r, ": Self = ");
                    let h = hex_literal_exec(bit_value(*bitpos as u32));
                    extend_chars(&mut r, h.as_slice());
                    extend_str(&mut r, ";");
                    Ok(Some(r))
                },
                EnumSpec::Value { value, .. } => {
                    let i = match ident_exec(group, &d.name) {
                        Ok(i) => i,
                        Err(e) => {
                            return Err(e);
                        },
                    };
                    let mut r = chars_of("    pub const ");
                    extend_chars(&mut r, i.as_slice());
                    extend_str(&mut r, ": Self = ");
                    extend_str(&mut r, value.as_str());
                    extend_str(&mut r, ";");
                    Ok(Some(r))
                },
                _ => Err(fail(ErrorKind::UnexpectedShape, group)),
            }
        },
    }
}

proof fn lemma_enum_c_err(cs: Seq<EnumsChild>, wide: Option<u32>, g: Seq<char>, k: int, e: Fault)
    requires
        0 <= k <= cs.len(),
        enum_c_lines(cs.take(k), wide, g) == Err::<Seq<Seq<char>>, Fault>(e),
    ensures
        enum_c_lines(cs, wide, g) == Err::<Seq<Seq<char>>, Fault>(e),
    decreases cs.len() - k,
{
    if k < cs.len() {
        assert(cs.take(k + 1).drop_last() =~= cs.take(k));
        lemma_enum_c_err(cs, wide, g, k + 1, e);
    } else {
        assert(cs.take(k) =~= cs);
    }
}

proof fn lemma_enum_rs_err(cs: Seq<EnumsChild>, g: Seq<char>, k: int, e: Fault)
    requires
        0 <= k <= cs.len(),
        enum_rs_lines(cs.take(k), g) == Err::<Seq<Seq<char>>, Fault>(e),
    ensures
        enum_rs_lines(cs, g) == Err::<Seq<Seq<char>>, Fault>(e),
    decreases cs.len() - k,
{
    if k < cs.len() {
        assert(cs.take(k + 1).drop_last() =~= cs.take(k));
        lemma_enum_rs_err(cs, g, k + 1, e);
    } else {
        assert(cs.take(k) =~= cs);
    }
}

fn enum_lines_exec(g: &EnumGroup, name: &[char]) -> (r: Result<
    (Vec<Vec<char>>, Vec<Vec<char>>),
    ConvertError,
>)
    ensures
        r matches Ok((c, rs)) ==> enum_c_lines(g.children@, g.bitwidth, name@) == Ok::<
            Seq<Seq<char>>,
            Fault,
        >(views(c@)) && enum_rs_lines(g.children@, name@) == Ok::<Seq<Seq<char>>, Fault>(
            views(rs@),
        ),
        r matches Err(e) ==> (enum_c_lines(g.children@, g.bitwidth, name@) == Err::<
            Seq<Seq<char>>,
            Fault,
        >(fault_of(e))) || (enum_c_lines(g.children@, g.bitwidth, name@) is Ok
            && enum_rs_lines(g.children@, name@) == Err::<Seq<Seq<char>>, Fault>(fault_of(e))),
{
    let cs = &g.children;
    let mut c_lines: Vec<Vec<char>> = Vec::new();
    let mut i: usize = 0;
    proof {
        assert(cs@.take(0) =~= Seq::<EnumsChild>::empty());
        assert(views(c_lines@) =~= Seq::<Seq<char>>::empty());
    }
    while i < cs.len()
        invariant
            i <= cs@.len(),
            cs@ == g.children@,
            enum_c_lines(cs@.take(i as int), g.bitwidth, name@) == Ok::<Seq<Seq<char>>, Fault>(
                views(c_lines@),
            ),
        decreases cs@.len() - i,
    {
        proof {
            assert(cs@.take(i + 1).drop_last() =~= cs@.take(i as int));
        }
        match enum_c_line_exec(&cs[i], g.bitwidth, name) {
            Ok(l) => {
                let ghost before = c_lines@;
                c_lines.push(l);
                assert(views(c_lines@) =~= views(before).push(l@));
            },
            Err(e) => {
                proof {
                    lemma_enum_c_err(cs@, g.bitwidth, name@, i + 1, fault_of(e));
                }
                return Err(e);
            },
        }
        i += 1;
    }
    proof {
        assert(cs@.take(i as int) =~= cs@);
    }
    let mut rs_lines: Vec<Vec<char>> = Vec::new();
    let mut j: usize = 0;
    proof {
        assert(views(rs_lines@) =~= Seq::<Seq<char>>::empty());
    }
    while j < cs.len()
        invariant
            j <= cs@.len(),
            cs@ == g.children@,
            enum_c_lines(cs@, g.bitwidth, name@) == Ok::<Seq<Seq<char>>, Fault>(views(c_lines@)),
            enum_rs_lines(cs@.take(j as int), name@) == Ok::<Seq<Seq<char>>, Fault>(
                views(rs_lines@),
            ),
        decreases cs@.len() - j,
    {
        proof {
            assert(cs@.take(j + 1).drop_last() =~= cs@.take(j as int));
        }
        match enum_rs_line_exec(&cs[j], name) {
            Ok(Some(l)) => {
                let ghost before = rs_lines@;
                rs_lines.push(l);
                assert(views(rs_lines@) =~= views(before).push(l@));
            },
            Ok(None) => {},
            Err(e) => {
                proof {
                    lemma_enum_rs_err(cs@, name@, j + 1, fault_of(e));
                }
                return Err(e);
            },
        }
        j += 1;
    }
    proof {
        assert(cs@.take(j as int) =~= cs@);
    }
    Ok((c_lines, rs_lines))
}

fn strip_vk_const_exec(s: &[char]) -> (r: Option<Vec<char>>)
    ensures
        r matches Some(v) ==> strip_vk_const(s@) == Some(v@),
        r is None ==> strip_vk_const(s@) is None,
{
    let vk = chars_of("VK_");
    proof {
        reveal_strlit("VK_");
    }
    if starts_with(s, vk.as_slice()) {
        let v = slice_chars(s, 3, s.len());
        assert(v@ =~= s@.skip(3));
        Some(v)
    } else {
        None
    }
}

// ---------------------------------------------------------------------------
// Commands

/// The lines joined, each followed by a line break.
pub open spec fn concat_lines(ls: Seq<Seq<char>>) -> Seq<char>
    decreases ls.len(),
{
    if ls.len() == 0 {
        Seq::empty()
    } else {
        concat_lines(ls.drop_last()) + ls.last() + "\n"@
    }
}

/// The lines joined with `sep` between them.
pub open spec fn join_sep(ls: Seq<Seq<char>>, sep: Seq<char>) -> Seq<char>
    decreases ls.len(),
{
    if ls.len() == 0 {
        Seq::empty()
    } else if ls.len() == 1 {
        ls[0]
    } else {
        join_sep(ls.drop_last(), sep) + sep + ls.last()
    }
}

pub fn concat_exec(ls: &Vec<Vec<char>>) -> (r: Vec<char>)
    ensures
        r@ == concat_lines(views(ls@)),
{
    let mut r: Vec<char> = Vec::new();
    let mut i: usize = 0;
    while i < ls.len()
        invariant
            i <= ls@.len(),
            r@ == concat_lines(views(ls@.take(i as int))),
        decreases ls@.len() - i,
    {
        proof {
            assert(views(ls@.take(i + 1)).drop_last() =~= views(ls@.take(i as int)));
        }
        extend_chars(&mut r, ls[i].as_slice());
        extend_str(&mut r, "\n");
        i += 1;
    }
    proof {
        assert(ls@.take(i as int) =~= ls@);
    }
    r
}

pub fn join_sep_exec(ls: &Vec<Vec<char>>, sep: &str) -> (r: Vec<char>)
    ensures
        r@ == join_sep(views(ls@), sep@),
{
    let mut r: Vec<char> = Vec::new();
    let mut i: usize = 0;
    while i < ls.len()
        invariant
            i <= ls@.len(),
            r@ == join_sep(views(ls@.take(i as int)), sep@),
        decreases ls@.len() - i,
    {
        proof {
            assert(views(ls@.take(i + 1)).drop_last() =~= views(ls@.take(i as int)));
        }
        if i > 0 {
            extend_str(&mut r, sep);
        }
        extend_chars(&mut r, ls[i].as_slice());
        i += 1;
    }
    proof {
        assert(ls@.take(i as int) =~= ls@);
    }
    r
}

/// A command parameter as the source declares it.
pub open spec fn param_c_lines(ps: Seq<CommandParam>) -> Seq<Seq<char>>
    decreases ps.len(),
{
    if ps.len() == 0 {
        Seq::empty()
    } else {
        param_c_lines(ps.drop_last()).push("    "@ + ps.last().code@)
    }
}

/// A command parameter in the target syntax.
pub open spec fn param_rs_line(p: CommandParam, owner: Seq<char>) -> Result<Seq<char>, Fault> {
    match declared_type(p.code@, p.name@) {
        None => Err((ErrorKind::UnexpectedShape, owner)),
        Some(t) => Ok("    "@ + snake_of(p.name@) + ": "@ + rust_type_of(t) + ","@),
    }
}

pub open spec fn param_rs_lines(ps: Seq<CommandParam>, owner: Seq<char>) -> Result<
    Seq<Seq<char>>,
    Fault,
>
    decreases ps.len(),
{
    if ps.len() == 0 {
        Ok(Seq::empty())
    } else {
        match param_rs_lines(ps.drop_last(), owner) {
            Err(e) => Err(e),
            Ok(ls) => match param_rs_line(ps.last(), owner) {
                Err(e) => Err(e),
                Ok(l) => Ok(ls.push(l)),
            },
        }
    }
}

/// The failure of resolving the command `name`, where it fails.
pub open spec fn chain_fault(e: ChainEnd, name: Seq<char>) -> Fault {
    match e {
        ChainEnd::Missing(m) => (ErrorKind::NotFound, m),
        _ => (ErrorKind::CycleDetected, name),
    }
}

/// The declaration of a command under the requested name: the
/// parameters as the source has them, and their translations.
pub open spec fn proto_of(name: Seq<char>, d: CommandDef) -> Rendered {
    let ret = match d.return_type {
        Some(t) => t@,
        None => Seq::empty(),
    };
    if !is_prefix("vk"@, name) {
        shape(name)
    } else {
        match param_rs_lines(d.params@, name) {
            Err(e) => Err(e),
            Ok(rl) => Ok(
                code_group(
                    ret + " "@ + name + "(\n"@ + join_sep(param_c_lines(d.params@), ",\n"@)
                        + ");"@,
                    "pub fn "@ + snake_of(name.skip(2)) + "(\n"@ + concat_lines(rl) + ")"@ + (if ret
                        == "void"@ {
                        Seq::empty()
                    } else {
                        " -> "@ + rust_type_of(ret)
                    }) + ";"@,
                ),
            ),
        }
    }
}

/// A command prototype, resolved through its aliases.
pub open spec fn proto_block(ix: IndexModel, fuel: nat, name: Seq<char>) -> Rendered {
    match chain_end(ix.commands, name, fuel) {
        ChainEnd::Found(d, _) => proto_of(name, d),
        other => Err(chain_fault(other, name)),
    }
}

/// One front-matter line, present where the value is.
pub open spec fn opt_line(head: Seq<char>, v: Option<String>, tail: Seq<char>) -> Seq<char> {
    match v {
        Some(x) => head + x@ + tail,
        None => Seq::empty(),
    }
}

/// The front-matter lines of a command's classification fields.
pub open spec fn attributes_of(d: CommandDef) -> Seq<char> {
    opt_line("cmd_buf_level: ["@, d.cmdbufferlevel, "]\n"@) + opt_line(
        "render_pass_scope: "@,
        d.renderpass,
        "\n"@,
    ) + opt_line("video_coding_scope: "@, d.videocoding, "\n"@) + opt_line(
        "supported_queue_types: ["@,
        d.queues,
        "]\n"@,
    ) + opt_line("tasks: ["@, d.tasks, "]\n"@)
}

/// The front-matter lines of a command, resolved through its aliases.
pub open spec fn attributes_block(ix: IndexModel, fuel: nat, name: Seq<char>) -> Rendered {
    match chain_end(ix.commands, name, fuel) {
        ChainEnd::Found(d, _) => Ok(attributes_of(d)),
        other => Err(chain_fault(other, name)),
    }
}

fn push_opt_line(r: &mut Vec<char>, head: &str, v: &Option<String>, tail: &str)
    ensures
        final(r)@ == old(r)@ + opt_line(head@, *v, tail@),
{
    match v {
        Some(x) => {
            extend_str(r, head);
            extend_str(r, x.as_str());
            extend_str(r, tail);
        },
        None => {
            assert(old(r)@ + Seq::<char>::empty() =~= old(r)@);
        },
    }
}

fn attributes_exec(d: &CommandDef) -> (r: Vec<char>)
    ensures
        r@ == attributes_of(*d),
{
    let mut r: Vec<char> = Vec::new();
    push_opt_line(&mut r, "cmd_buf_level: [", &d.cmdbufferlevel, "]\n");
    push_opt_line(&mut r, "render_pass_scope: ", &d.renderpass, "\n");
    push_opt_line(&mut r, "video_coding_scope: ", &d.videocoding, "\n");
    push_opt_line(&mut r, "supported_queue_types: [", &d.queues, "]\n");
    push_opt_line(&mut r, "tasks: [", &d.tasks, "]\n");
    assert(r@ =~= attributes_of(*d));
    r
}

proof fn lemma_params_err(ps: Seq<CommandParam>, owner: Seq<char>, k: int, e: Fault)
    requires
        0 <= k <= ps.len(),
        param_rs_lines(ps.take(k), owner) == Err::<Seq<Seq<char>>, Fault>(e),
    ensures
        param_rs_lines(ps, owner) == Err::<Seq<Seq<char>>, Fault>(e),
    decreases ps.len() - k,
{
    if k < ps.len() {
        assert(ps.take(k + 1).drop_last() =~= ps.take(k));
        lemma_params_err(ps, owner, k + 1, e);
    } else {
        assert(ps.take(k) =~= ps);
    }
}

fn proto_exec(name: &[char], d: &CommandDef) -> (r: Result<Vec<char>, ConvertError>)
    ensures
        agrees_chars(r, proto_of(name@, *d)),
{
    let vk = chars_of("vk");
    proof {
        reveal_strlit("vk");
    }
    if !starts_with(name, vk.as_slice()) {
        return Err(fail(ErrorKind::UnexpectedShape, name));
    }
    let ps = &d.params;
    let mut c_lines: Vec<Vec<char>> = Vec::new();
    let mut rs_lines: Vec<Vec<char>> = Vec::new();
    let mut i: usize = 0;
    proof {
        assert(ps@.take(0) =~= Seq::<CommandParam>::empty());
        assert(views(c_lines@) =~= Seq::<Seq<char>>::empty());
        assert(views(rs_lines@) =~= Seq::<Seq<char>>::empty());
    }
    while i < ps.len()
        invariant
            i <= ps@.len(),
            ps@ == d.params@,
            views(c_lines@) == param_c_lines(ps@.take(i as int)),
            param_rs_lines(ps@.take(i as int), name@) == Ok::<Seq<Seq<char>>, Fault>(
                views(rs_lines@),
            ),
        decreases ps@.len() - i,
    {
        proof {
            assert(ps@.take(i + 1).drop_last() =~= ps@.take(i as int));
        }
        let p = &ps[i];
        let mut cl = chars_of("    ");
        extend_str(&mut cl, p.code.as_str());
        let ghost before_c = c_lines@;
        c_lines.push(cl);
        assert(views(c_lines@) =~= views(before_c).push(cl@));
        let code = copy_chars(&p.code);
        let pn = copy_chars(&p.name);
        let t = match declared_type_exec(code.as_slice(), pn.as_slice()) {
            Some(t) => t,
            None => {
                let e = fail(ErrorKind::UnexpectedShape, name);
                proof {
                    lemma_params_err(ps@, name@, i + 1, fault_of(e));
                }
                return Err(e);
            },
        };
        let mut l = chars_of("    ");
        let sn = snake_case(pn.as_slice());
        extend_chars(&mut l, sn.as_slice());
        extend_str(&mut l, ": ");
        let rt = rust_type_chars(t.as_slice());
        extend_chars(&mut l, rt.as_slice());
        extend_str(&mut l, ",");
        let ghost before_r = rs_lines@;
        rs_lines.push(l);
        assert(views(rs_lines@) =~= views(before_r).push(l@));
        i += 1;
    }
    proof {
        assert(ps@.take(i as int) =~= ps@);
    }
    let ret = match &d.return_type {
        Some(t) => copy_chars(t),
        None => Vec::new(),
    };
    let mut c = ret.clone();
    assert(c@ == ret@);
    extend_str(&mut c, " ");
    extend_chars(&mut c, name);
    extend_str(&mut c, "(\n");
    let cj = join_sep_exec(&c_lines, ",\n");
    extend_chars(&mut c, cj.as_slice());
    extend_str(&mut c, ");");
    let short = slice_chars(name, 2, name.len());
    assert(short@ =~= name@.skip(2));
    let mut rs = chars_of("pub fn ");
    let sn = snake_case(short.as_slice());
    extend_chars(&mut rs, sn.as_slice());
    extend_str(&mut rs, "(\n");
    let rj = concat_exec(&rs_lines);
    extend_chars(&mut rs, rj.as_slice());
    extend_str(&mut rs, ")");
    let mut arrow: Vec<char> = Vec::new();
    if !same_as(ret.as_slice(), "void") {
        extend_str(&mut arrow, " -> ");
        let rt = rust_type_chars(ret.as_slice());
        extend_chars(&mut arrow, rt.as_slice());
        assert(arrow@ =~= " -> "@ + rust_type_of(ret@));
    }
    extend_chars(&mut rs, arrow.as_slice());
    extend_str(&mut rs, ";");
    Ok(code_group_exec(c.as_slice(), rs.as_slice()))
}

// ---------------------------------------------------------------------------
// Function pointers

/// `s` cut at every `,`.
pub open spec fn split_commas(s: Seq<char>) -> Seq<Seq<char>>
    decreases s.len(),
{
    match first_index(s, seq![',']) {
        Some(i) => if 0 <= i < s.len() {
            seq![s.take(i)] + split_commas(s.skip(i + 1))
        } else {
            seq![s]
        },
        None => seq![s],
    }
}

/// The position of the last space in `s`, or -1.
pub open spec fn last_space(s: Seq<char>) -> int
    decreases s.len(),
{
    if s.len() == 0 {
        -1
    } else if s.last() == ' ' {
        s.len() - 1
    } else {
        last_space(s.drop_last())
    }
}

/// A parameter declaration split into its name and its type.
pub open spec fn param_parts(piece: Seq<char>) -> Option<(Seq<char>, Seq<char>)> {
    let p = collapse_spaces(trim(piece));
    let k = last_space(p);
    if 0 <= k {
        Some((p.skip(k + 1), trim(p.take(k))))
    } else {
        None
    }
}

/// The target line of one function-pointer parameter.
pub open spec fn fnptr_param_line(piece: Seq<char>) -> Option<Seq<char>> {
    match param_parts(piece) {
        Some((n, t)) => Some("        "@ + snake_of(n) + ": "@ + rust_type_of(t) + ","@),
        None => None,
    }
}

pub open spec fn fnptr_param_lines(pieces: Seq<Seq<char>>) -> Option<Seq<Seq<char>>>
    decreases pieces.len(),
{
    if pieces.len() == 0 {
        Some(Seq::empty())
    } else {
        match fnptr_param_lines(pieces.drop_last()) {
            None => None,
            Some(ls) => match fnptr_param_line(pieces.last()) {
                None => None,
                Some(l) => Some(ls.push(l)),
            },
        }
    }
}

/// The parameter declarations of a function-pointer typedef: what stands
/// between the `)(` after the pointer's name and the closing `);`. A lone
/// `void` (or nothing) declares none.
pub open spec fn fnptr_params(t: Seq<char>) -> Option<Seq<Seq<char>>> {
    match first_index(t, ")("@) {
        Some(j) => if is_suffix(");"@, t) && j + 2 <= t.len() - 2 {
            let region = t.subrange(j + 2, t.len() - 2);
            if trim(region) == "void"@ || trim(region).len() == 0 {
                Some(Seq::empty())
            } else {
                Some(split_commas(region))
            }
        } else {
            None
        },
        None => None,
    }
}

/// The return type of a function-pointer typedef: what stands between
/// `typedef ` and the first `(`.
pub open spec fn fnptr_return(t: Seq<char>) -> Option<Seq<char>> {
    match first_index(t, "("@) {
        Some(k) => if is_prefix("typedef "@, t) && 8 <= k <= t.len() {
            Some(trim(t.subrange(8, k)))
        } else {
            None
        },
        None => None,
    }
}

/// A function-pointer type: its typedef beside an optional callable.
pub open spec fn fnptr_block(ix: IndexModel, name: Seq<char>) -> Rendered {
    if !ix.types.contains_key(name) {
        missing(name)
    } else {
        match code_of(ix.types[name]) {
            None => shape(name),
            Some(code) => {
                let t = trim(code);
                match (fnptr_return(t), fnptr_params(t)) {
                    (Some(ret), Some(pieces)) => match fnptr_param_lines(pieces) {
                        Some(ls) => Ok(
                            code_group(
                                code,
                                "pub type "@ + name
                                    + " = Option<\n    unsafe extern \"system\" fn(\n"@
                                    + join_lines(ls) + "\n    ) -> "@ + rust_type_of(ret)
                                    + "\n>;"@,
                            ),
                        ),
                        None => shape(name),
                    },
                    _ => shape(name),
                }
            },
        }
    }
}

#[verifier::rlimit(40)]
fn split_commas_exec(s: &[char]) -> (r: Vec<Vec<char>>)
    ensures
        views(r@) == split_commas(s@),
{
    let comma = vec![','];
    assert(comma@ =~= seq![',']);
    let mut pieces: Vec<Vec<char>> = Vec::new();
    let mut rest = slice_chars(s, 0, s.len());
    assert(rest@ =~= s@);
    assert(views(pieces@) =~= Seq::<Seq<char>>::empty());
    loop
        invariant
            comma@ == seq![','],
            views(pieces@) + split_commas(rest@) == split_commas(s@),
        decreases rest@.len(),
    {
        match find_first(rest.as_slice(), comma.as_slice()) {
            Some(i) => {
                if i < rest.len() {
                    let head = slice_chars(rest.as_slice(), 0, i);
                    let tail = slice_chars(rest.as_slice(), i + 1, rest.len());
                    assert(head@ =~= rest@.take(i as int));
                    assert(tail@ =~= rest@.skip(i + 1));
                    let ghost before = pieces@;
                    pieces.push(head);
                    assert(views(pieces@) =~= views(before).push(head@));
                    assert(views(pieces@) + split_commas(tail@) =~= views(before) + split_commas(
                        rest@,
                    ));
                    rest = tail;
                } else {
                    let ghost before = pieces@;
                    pieces.push(rest);
                    assert(views(pieces@) =~= views(before) + split_commas(s@).skip(
                        views(before).len() as int,
                    ));
                    assert(views(pieces@) =~= split_commas(s@));
                    return pieces;
                }
            },
            None => {
                let ghost before = pieces@;
                pieces.push(rest);
                assert(views(pieces@) =~= split_commas(s@));
                return pieces;
            },
        }
    }
}

fn last_space_exec(s: &[char]) -> (r: Option<usize>)
    ensures
        r matches Some(k) ==> last_space(s@) == k as int && k < s@.len(),
        r is None ==> last_space(s@) == -1,
{
    let mut k: usize = s.len();
    assert(s@.take(k as int) =~= s@);
    while k > 0
        invariant
            k <= s@.len(),
            last_space(s@) == last_space(s@.take(k as int)),
        decreases k,
    {
        if s[k - 1] == ' ' {
            return Some(k - 1);
        }
        assert(s@.take(k as int).drop_last() =~= s@.take(k - 1));
        k -= 1;
    }
    None
}

fn fnptr_param_line_exec(piece: &[char]) -> (r: Option<Vec<char>>)
    ensures
        r matches Some(l) ==> fnptr_param_line(piece@) == Some(l@),
        r is None ==> fnptr_param_line(piece@) is None,
{
    let t = trim_exec(piece);
    let p = collapse_spaces_exec(t.as_slice());
    let k = match last_space_exec(p.as_slice()) {
        Some(k) => k,
        None => {
            return None;
        },
    };
    if k >= p.len() {
        return None;
    }
    let n = slice_chars(p.as_slice(), k + 1, p.len());
    assert(n@ =~= p@.skip(k + 1));
    let head = slice_chars(p.as_slice(), 0, k);
    assert(head@ =~= p@.take(k as int));
    let ty = trim_exec(head.as_slice());
    let mut l = chars_of("        ");
    let sn = snake_case(n.as_slice());
    extend_chars(&mut l, sn.as_slice());
    extend_str(&mut l, ": ");
    let rt = rust_type_chars(ty.as_slice());
    extend_chars(&mut l, rt.as_slice());
    extend_str(&mut l, ",");
    Some(l)
}

proof fn lemma_fnptr_lines_none(pieces: Seq<Seq<char>>, k: int)
    requires
        0 <= k <= pieces.len(),
        fnptr_param_lines(pieces.take(k)) is None,
    ensures
        fnptr_param_lines(pieces) is None,
    decreases pieces.len() - k,
{
    if k < pieces.len() {
        assert(pieces.take(k + 1).drop_last() =~= pieces.take(k));
        lemma_fnptr_lines_none(pieces, k + 1);
    } else {
        assert(pieces.take(k) =~= pieces);
    }
}

fn fnptr_lines_exec(pieces: &Vec<Vec<char>>) -> (r: Option<Vec<Vec<char>>>)
    ensures
        r matches Some(ls) ==> fnptr_param_lines(views(pieces@)) == Some(views(ls@)),
        r is None ==> fnptr_param_lines(views(pieces@)) is None,
{
    let mut ls: Vec<Vec<char>> = Vec::new();
    let mut i: usize = 0;
    proof {
        assert(views(pieces@).take(0) =~= Seq::<Seq<char>>::empty());
        assert(views(ls@) =~= Seq::<Seq<char>>::empty());
    }
    while i < pieces.len()
        invariant
            i <= pieces@.len(),
            fnptr_param_lines(views(pieces@).take(i as int)) == Some(views(ls@)),
        decreases pieces@.len() - i,
    {
        proof {
            assert(views(pieces@).take(i + 1).drop_last() =~= views(pieces@).take(i as int));
            assert(views(pieces@).take(i + 1).last() == pieces@[i as int]@);
        }
        match fnptr_param_line_exec(pieces[i].as_slice()) {
            Some(l) => {
                let ghost before = ls@;
                ls.push(l);
                assert(views(ls@) =~= views(before).push(l@));
            },
            None => {
                proof {
                    lemma_fnptr_lines_none(views(pieces@), i + 1);
                }
                return None;
            },
        }
        i += 1;
    }
    proof {
        assert(views(pieces@).take(i as int) =~= views(pieces@));
    }
    Some(ls)
}

#[verifier::rlimit(40)]
fn fnptr_params_exec(t: &[char]) -> (r: Option<Vec<Vec<char>>>)
    ensures
        r matches Some(ps) ==> fnptr_params(t@) == Some(views(ps@)),
        r is None ==> fnptr_params(t@) is None,
{
    let open = chars_of(")(");
    let close = chars_of(");");
    proof {
        reveal_strlit(")(");
        reveal_strlit(");");
    }
    let j = match find_first(t, open.as_slice()) {
        Some(j) => j,
        None => {
            return None;
        },
    };
    if !crate::text::ends_with(t, close.as_slice()) || t.len() < 4 || j > t.len() - 4 {
        return None;
    }
    let region = slice_chars(t, j + 2, t.len() - 2);
    let tr = trim_exec(region.as_slice());
    if same_as(tr.as_slice(), "void") || tr.len() == 0 {
        let empty: Vec<Vec<char>> = Vec::new();
        assert(views(empty@) =~= Seq::<Seq<char>>::empty());
        return Some(empty);
    }
    Some(split_commas_exec(region.as_slice()))
}

fn fnptr_return_exec(t: &[char]) -> (r: Option<Vec<char>>)
    ensures
        r matches Some(v) ==> fnptr_return(t@) == Some(v@),
        r is None ==> fnptr_return(t@) is None,
{
    let paren = chars_of("(");
    let td = chars_of("typedef ");
    proof {
        reveal_strlit("typedef ");
    }
    let k = match find_first(t, paren.as_slice()) {
        Some(k) => k,
        None => {
            return None;
        },
    };
    if !starts_with(t, td.as_slice()) || k < 8 {
        return None;
    }
    let mid = slice_chars(t, 8, k);
    Some(trim_exec(mid.as_slice()))
}

fn copy_chars(s: &String) -> (r: Vec<char>)
    ensures
        r@ == s@,
{
    chars_of(s.as_str())
}

fn first_type_markup_exec(ms: &Vec<CodeMarkup>) -> (r: Option<Vec<char>>)
    ensures
        r matches Some(s) ==> first_type_markup(ms@) == Some(s@),
        r is None ==> first_type_markup(ms@) is None,
{
    let mut i: usize = 0;
    assert(ms@.skip(0) =~= ms@);
    while i < ms.len()
        invariant
            i <= ms@.len(),
            first_type_markup(ms@) == first_type_markup(ms@.skip(i as int)),
        decreases ms@.len() - i,
    {
        assert(ms@.skip(i as int).skip(1) =~= ms@.skip(i + 1));
        match &ms[i] {
            CodeMarkup::Type(n) => {
                return Some(copy_chars(n));
            },
            _ => {},
        }
        i += 1;
    }
    None
}

fn first_name_markup_chars(ms: &Vec<CodeMarkup>) -> (r: Option<Vec<char>>)
    ensures
        r matches Some(s) ==> crate::registry::first_name_markup(ms@) == Some(s@),
        r is None ==> crate::registry::first_name_markup(ms@) is None,
{
    let mut i: usize = 0;
    assert(ms@.skip(0) =~= ms@);
    while i < ms.len()
        invariant
            i <= ms@.len(),
            crate::registry::first_name_markup(ms@) == crate::registry::first_name_markup(
                ms@.skip(i as int),
            ),
        decreases ms@.len() - i,
    {
        assert(ms@.skip(i as int).skip(1) =~= ms@.skip(i + 1));
        match &ms[i] {
            CodeMarkup::Name(n) => {
                return Some(copy_chars(n));
            },
            _ => {},
        }
        i += 1;
    }
    None
}

fn alias_block_exec(name: &[char], alias: &[char], head: &str, tail: &str) -> (r: Result<
    Vec<char>,
    ConvertError,
>)
    ensures
        agrees_chars(r, alias_block(name@, alias@, head@, tail@)),
{
    let rs_name = match strip_vk_exec(name) {
        Some(v) => v,
        None => {
            return Err(fail(ErrorKind::UnexpectedShape, name));
        },
    };
    let rs_alias = match strip_vk_exec(alias) {
        Some(v) => v,
        None => {
            return Err(fail(ErrorKind::UnexpectedShape, name));
        },
    };
    let mut c = chars_of("typedef ");
    extend_chars(&mut c, alias);
    extend_str(&mut c, " ");
    extend_chars(&mut c, name);
    extend_str(&mut c, ";");
    let mut rs = chars_of(head);
    extend_chars(&mut rs, rs_name.as_slice());
    extend_str(&mut rs, " = vk::");
    extend_chars(&mut rs, rs_alias.as_slice());
    extend_str(&mut rs, tail);
    Ok(code_group_exec(c.as_slice(), rs.as_slice()))
}

impl Converter {
    /// A raw macro-style define, reproduced as source.
    pub fn generate_define(&self, name: &str) -> (r: Result<String, ConvertError>)
        requires
            self.wf(),
        ensures
            agrees(r, define_block(self@, name@)),
    {
        let n = chars_of(name);
        let t = match self.type_named(n.as_slice()) {
            Some(t) => t,
            None => {
                return Err(fail(ErrorKind::NotFound, n.as_slice()));
            },
        };
        match &t.spec {
            TypeSpec::Code(code) => {
                let mut r = chars_of("```c\n");
                extend_str(&mut r, code.code.as_str());
                extend_str(&mut r, "\n```\n");
                Ok(string_of(r.as_slice()))
            },
            _ => Err(fail(ErrorKind::UnexpectedShape, n.as_slice())),
        }
    }

    /// A base type, reproduced as source.
    pub fn generate_basetype(&self, name: &str) -> (r: Result<String, ConvertError>)
        requires
            self.wf(),
        ensures
            agrees(r, basetype_block(self@, name@)),
    {
        let n = chars_of(name);
        let t = match self.type_named(n.as_slice()) {
            Some(t) => t,
            None => {
                return Err(fail(ErrorKind::NotFound, n.as_slice()));
            },
        };
        match &t.spec {
            TypeSpec::Code(code) => {
                let mut r = chars_of("```c\n");
                extend_str(&mut r, code.code.as_str());
                extend_str(&mut r, "\n```");
                Ok(string_of(r.as_slice()))
            },
            _ => Err(fail(ErrorKind::UnexpectedShape, n.as_slice())),
        }
    }

    /// An opaque handle: its typedef beside a transparent wrapper, or, for
    /// an alias, the two aliases.
    pub fn generate_handles(&self, name: &str) -> (r: Result<String, ConvertError>)
        requires
            self.wf(),
        ensures
            agrees(r, handle_block(self@, name@)),
    {
        let n = chars_of(name);
        let t = match self.type_named(n.as_slice()) {
            Some(t) => t,
            None => {
                return Err(fail(ErrorKind::NotFound, n.as_slice()));
            },
        };
        if let Some(a) = &t.alias {
            let ac = copy_chars(a);
            return to_string_result(alias_block_exec(n.as_slice(), ac.as_slice(), "type ", ";"));
        }
        let code = match &t.spec {
            TypeSpec::Code(code) => copy_chars(&code.code),
            _ => {
                return Err(fail(ErrorKind::UnexpectedShape, n.as_slice()));
            },
        };
        let rs_name = match strip_vk_exec(n.as_slice()) {
            Some(v) => v,
            None => {
                return Err(fail(ErrorKind::UnexpectedShape, n.as_slice()));
            },
        };
        let mut rs = chars_of("#[repr(transparent)]\npub struct ");
        extend_chars(&mut rs, rs_name.as_slice());
        extend_str(&mut rs, "(_);");
        Ok(string_of(code_group_exec(code.as_slice(), rs.as_slice()).as_slice()))
    }

    /// A bitmask type: its typedef beside a wrapper of the underlying width.
    pub fn generate_flags(&self, name: &str) -> (r: Result<String, ConvertError>)
        requires
            self.wf(),
        ensures
            agrees(r, flags_block(self@, name@)),
    {
        let n = chars_of(name);
        let t = match self.type_named(n.as_slice()) {
            Some(t) => t,
            None => {
                return Err(fail(ErrorKind::NotFound, n.as_slice()));
            },
        };
        if let Some(a) = &t.alias {
            let ac = copy_chars(a);
            return to_string_result(
                alias_block_exec(n.as_slice(), ac.as_slice(), "pub type ", ";"),
            );
        }
        let code = match &t.spec {
            TypeSpec::Code(code) => code,
            _ => {
                return Err(fail(ErrorKind::UnexpectedShape, n.as_slice()));
            },
        };
        let ty = match first_type_markup_exec(&code.markup) {
            Some(v) => v,
            None => {
                return Err(fail(ErrorKind::UnexpectedShape, n.as_slice()));
            },
        };
        let flag_name = match first_name_markup_chars(&code.markup) {
            Some(v) => v,
            None => {
                return Err(fail(ErrorKind::UnexpectedShape, n.as_slice()));
            },
        };
        let width = if same_as(ty.as_slice(), "VkFlags") {
            "u32"
        } else if same_as(ty.as_slice(), "VkFlags64") {
            "u64"
        } else {
            return Err(fail(ErrorKind::UnexpectedShape, n.as_slice()));
        };
        if code.markup.len() != 2 || flag_name.len() < 2 {
            return Err(fail(ErrorKind::UnexpectedShape, n.as_slice()));
        }
        let short = slice_chars(flag_name.as_slice(), 2, flag_name.len());
        assert(short@ =~= flag_name@.skip(2));
        let mut rs = chars_of("pub struct ");
        extend_chars(&mut rs, short.as_slice());
        extend_str(&mut rs, "(");
        extend_str(&mut rs, width);
        extend_str(&mut rs, ");");
        let c = copy_chars(&code.code);
        Ok(string_of(code_group_exec(c.as_slice(), rs.as_slice()).as_slice()))
    }

    /// An aggregate: every member in declaration order, in both syntaxes,
    /// with translated types, target-convention names and trailing comments.
    pub fn generate_api_struct(&self, name: &str) -> (r: Result<String, ConvertError>)
        requires
            self.wf(),
        ensures
            agrees(r, struct_block(self@, name@)),
    {
        let n = chars_of(name);
        let t = match self.type_named(n.as_slice()) {
            Some(t) => t,
            None => {
                return Err(fail(ErrorKind::NotFound, n.as_slice()));
            },
        };
        if let Some(a) = &t.alias {
            let ac = copy_chars(a);
            return to_string_result(alias_block_exec(n.as_slice(), ac.as_slice(), "type ", ";"));
        }
        let ms = match &t.spec {
            TypeSpec::Members(ms) => ms,
            _ => {
                return Err(fail(ErrorKind::UnexpectedShape, n.as_slice()));
            },
        };
        let rs_name = match strip_vk_exec(n.as_slice()) {
            Some(v) => v,
            None => {
                return Err(fail(ErrorKind::UnexpectedShape, n.as_slice()));
            },
        };
        let (cl, rl) = match members_lines_exec(ms, n.as_slice()) {
            Ok(p) => p,
            Err(e) => {
                return Err(e);
            },
        };
        let mut c = chars_of("typedef struct ");
        extend_chars(&mut c, n.as_slice());
        extend_str(&mut c, " {\n");
        let cj = join_exec(&cl);
        extend_chars(&mut c, cj.as_slice());
        extend_str(&mut c, "\n} ");
        extend_chars(&mut c, n.as_slice());
        extend_str(&mut c, ";");
        let mut rs = chars_of("pub struct ");
        extend_chars(&mut rs, rs_name.as_slice());
        extend_str(&mut rs, " {\n");
        let rj = join_exec(&rl);
        extend_chars(&mut rs, rj.as_slice());
        extend_str(&mut rs, "\n}");
        Ok(string_of(code_group_exec(c.as_slice(), rs.as_slice()).as_slice()))
    }

    fn group_exec(&self, n: &[char], g: &EnumGroup) -> (r: Result<Vec<char>, ConvertError>)
        ensures
            agrees_chars(r, group_block(n@, *g)),
    {
        let rs_name = match strip_vk_exec(n) {
            Some(v) => v,
            None => {
                return Err(fail(ErrorKind::UnexpectedShape, n));
            },
        };
        let (cl, rl) = match enum_lines_exec(g, n) {
            Ok(p) => p,
            Err(e) => {
                return Err(e);
            },
        };
        let mut c = chars_of("typedef enum ");
        extend_chars(&mut c, n);
        extend_str(&mut c, " {\n");
        let cj = join_exec(&cl);
        extend_chars(&mut c, cj.as_slice());
        extend_str(&mut c, "\n} ");
        extend_chars(&mut c, n);
        extend_str(&mut c, ";");
        let mut rs = chars_of("pub struct ");
        extend_chars(&mut rs, rs_name.as_slice());
        extend_str(&mut rs, "(");
        if g.bitwidth.is_some() {
            extend_str(&mut rs, "u64");
        } else {
            extend_str(&mut rs, "u32");
        }
        extend_str(&mut rs, ");\nimpl ");
        extend_chars(&mut rs, rs_name.as_slice());
        extend_str(&mut rs, " {\n");
        let rj = join_exec(&rl);
        extend_chars(&mut rs, rj.as_slice());
        extend_str(&mut rs, "\n}");
        Ok(code_group_exec(c.as_slice(), rs.as_slice()))
    }

    /// The literal the constant `a` stands for, as `const_literal` says.
    fn const_literal_exec(&self, a: &[char], owner: &[char]) -> (r: Result<Vec<char>, ConvertError>)
        requires
            self.wf(),
        ensures
            agrees_chars(r, const_literal(self@.consts, a@, self.const_count(), owner@)),
    {
        let fuel = self.const_len();
        let mut cur = slice_chars(a, 0, a.len());
        assert(cur@ =~= a@);
        let mut steps: usize = 0;
        loop
            invariant
                self.wf(),
                steps <= fuel,
                fuel == self.const_count(),
                const_end(self@.consts, a@, fuel as nat) == const_end(
                    self@.consts,
                    cur@,
                    (fuel - steps) as nat,
                ),
            decreases fuel - steps,
        {
            let e = match self.const_named(cur.as_slice()) {
                Some(e) => e,
                None => {
                    return Err(fail(ErrorKind::NotFound, cur.as_slice()));
                },
            };
            match &e.spec {
                EnumSpec::Value { value, .. } => {
                    return Ok(copy_chars(value));
                },
                EnumSpec::Alias { alias, .. } => {
                    if steps == fuel {
                        return Err(fail(ErrorKind::CycleDetected, owner));
                    }
                    cur = copy_chars(alias);
                    steps += 1;
                },
                _ => {
                    return Err(fail(ErrorKind::UnexpectedShape, owner));
                },
            }
        }
    }

    fn const_exec(&self, n: &[char], e: &EnumEntry) -> (r: Result<Vec<char>, ConvertError>)
        requires
            self.wf(),
            self@.consts.contains_key(n@),
            self@.consts[n@] == value_view(e.spec),
        ensures
            agrees_chars(r, const_block(self@, self.const_count(), n@)),
    {
        let rs_name = match strip_vk_const_exec(n) {
            Some(v) => v,
            None => {
                return Err(fail(ErrorKind::UnexpectedShape, n));
            },
        };
        match &e.spec {
            EnumSpec::Value { value, extends: None } => {
                let (ty, val) = convert_c_enum_init_value_to_rust(value.as_str());
                let mut c = chars_of("#define ");
                extend_chars(&mut c, n);
                extend_str(&mut c, " ");
                extend_str(&mut c, value.as_str());
                let mut rs = chars_of("const ");
                extend_chars(&mut rs, rs_name.as_slice());
                extend_str(&mut rs, ": ");
                extend_str(&mut rs, ty);
                extend_str(&mut rs, " = ");
                extend_str(&mut rs, val.as_str());
                extend_str(&mut rs, ";");
                Ok(code_group_exec(c.as_slice(), rs.as_slice()))
            },
            EnumSpec::Alias { alias, .. } => {
                let a = copy_chars(alias);
                let value = match self.const_literal_exec(a.as_slice(), n) {
                    Ok(v) => string_of(v.as_slice()),
                    Err(e) => {
                        return Err(e);
                    },
                };
                let rs_alias = match strip_vk_const_exec(a.as_slice()) {
                    Some(v) => v,
                    None => {
                        return Err(fail(ErrorKind::UnexpectedShape, n));
                    },
                };
                let (ty, _) = convert_c_enum_init_value_to_rust(value.as_str());
                let mut c = chars_of("#define ");
                extend_chars(&mut c, n);
                extend_str(&mut c, " ");
                extend_chars(&mut c, a.as_slice());
                let mut rs = chars_of("const ");
                extend_chars(&mut rs, rs_name.as_slice());
                extend_str(&mut rs, ": ");
                extend_str(&mut rs, ty);
                extend_str(&mut rs, " = vk::");
                extend_chars(&mut rs, rs_alias.as_slice());
                extend_str(&mut rs, ";");
                Ok(code_group_exec(c.as_slice(), rs.as_slice()))
            },
            _ => Err(fail(ErrorKind::UnexpectedShape, n)),
        }
    }

    /// An enumeration group, a manifest constant, or an alias of either.
    pub fn generate_enum(&self, name: &str) -> (r: Result<String, ConvertError>)
        requires
            self.wf(),
        ensures
            agrees(r, enum_block(self@, self.const_count(), name@)),
    {
        let n = chars_of(name);
        if let Some(g) = self.enum_named(n.as_slice()) {
            return to_string_result(self.group_exec(n.as_slice(), g));
        }
        if let Some(e) = self.const_named(n.as_slice()) {
            return to_string_result(self.const_exec(n.as_slice(), e));
        }
        let t = match self.type_named(n.as_slice()) {
            Some(t) => t,
            None => {
                return Err(fail(ErrorKind::NotFound, n.as_slice()));
            },
        };
        let a = match &t.alias {
            Some(a) => copy_chars(a),
            None => {
                return Err(fail(ErrorKind::UnexpectedShape, n.as_slice()));
            },
        };
        let rs_name = match strip_vk_exec(n.as_slice()) {
            Some(v) => v,
            None => {
                return Err(fail(ErrorKind::UnexpectedShape, n.as_slice()));
            },
        };
        let rs_alias = match strip_vk_exec(a.as_slice()) {
            Some(v) => v,
            None => {
                return Err(fail(ErrorKind::UnexpectedShape, n.as_slice()));
            },
        };
        let mut c = chars_of("#define ");
        extend_chars(&mut c, n.as_slice());
        extend_str(&mut c, " ");
        extend_chars(&mut c, a.as_slice());
        let mut rs = chars_of("const ");
        extend_chars(&mut rs, rs_name.as_slice());
        extend_str(&mut rs, ": _ = vk::");
        extend_chars(&mut rs, rs_alias.as_slice());
        extend_str(&mut rs, ";");
        Ok(string_of(code_group_exec(c.as_slice(), rs.as_slice()).as_slice()))
    }

    /// A command prototype under the requested name, its definition found
    /// through any aliases.
    pub fn generate_fn_prototype(&self, name: &str) -> (r: Result<String, ConvertError>)
        requires
            self.wf(),
        ensures
            agrees(r, proto_block(self@, self.command_count(), name@)),
    {
        let n = chars_of(name);
        match self.resolve_command(name) {
            Ok((d, _)) => to_string_result(proto_exec(n.as_slice(), d)),
            Err(e) => Err(e),
        }
    }

    /// The front-matter lines of a command (buffer level, render-pass and
    /// video-coding scope, queue types, tasks), taken from its definition
    /// found through any aliases.
    pub fn fn_attributes(&self, name: &str) -> (r: Result<String, ConvertError>)
        requires
            self.wf(),
        ensures
            agrees(r, attributes_block(self@, self.command_count(), name@)),
    {
        match self.resolve_command(name) {
            Ok((d, _)) => Ok(string_of(attributes_exec(d).as_slice())),
            Err(e) => Err(e),
        }
    }

    /// A function-pointer type: the source typedef beside an optional
    /// callable with the parsed return and parameter types translated.
    pub fn generate_fn_ptr(&self, name: &str) -> (r: Result<String, ConvertError>)
        requires
            self.wf(),
        ensures
            agrees(r, fnptr_block(self@, name@)),
    {
        let n = chars_of(name);
        let t = match self.type_named(n.as_slice()) {
            Some(t) => t,
            None => {
                return Err(fail(ErrorKind::NotFound, n.as_slice()));
            },
        };
        let code = match &t.spec {
            TypeSpec::Code(code) => copy_chars(&code.code),
            _ => {
                return Err(fail(ErrorKind::UnexpectedShape, n.as_slice()));
            },
        };
        let tc = trim_exec(code.as_slice());
        let ret = match fnptr_return_exec(tc.as_slice()) {
            Some(r) => r,
            None => {
                return Err(fail(ErrorKind::UnexpectedShape, n.as_slice()));
            },
        };
        let pieces = match fnptr_params_exec(tc.as_slice()) {
            Some(p) => p,
            None => {
                return Err(fail(ErrorKind::UnexpectedShape, n.as_slice()));
            },
        };
        let lines = match fnptr_lines_exec(&pieces) {
            Some(l) => l,
            None => {
                return Err(fail(ErrorKind::UnexpectedShape, n.as_slice()));
            },
        };
        let mut rs = chars_of("pub type ");
        extend_chars(&mut rs, n.as_slice());
        extend_str(&mut rs, " = Option<\n    unsafe extern \"system\" fn(\n");
        let lj = join_exec(&lines);
        extend_chars(&mut rs, lj.as_slice());
        extend_str(&mut rs, "\n    ) -> ");
        let rt = rust_type_chars(ret.as_slice());
        extend_chars(&mut rs, rt.as_slice());
        extend_str(&mut rs, "\n>;");
        Ok(string_of(code_group_exec(code.as_slice(), rs.as_slice()).as_slice()))
    }
}

} // verus!
