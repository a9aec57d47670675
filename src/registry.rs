//! The registry as the library reads it, and the index built from it once:
//! types, commands, enumeration groups and manifest constants by name, and
//! the membership of each symbol in features and extensions.
use vstd::prelude::*;
use crate::membership::{add_item_parent, add_parent, Membership};
use crate::table::Table;
use crate::text::{str_is, string_of};

verus! {

/// A piece of markup inside a type's declaration code.
pub enum CodeMarkup {
    Name(String),
    Type(String),
    ApiEntry(String),
}

/// A declaration given as source code with markup.
pub struct TypeCode {
    pub code: String,
    pub markup: Vec<CodeMarkup>,
}

/// A piece of markup inside an aggregate member's declaration.
pub enum MemberMarkup {
    Name(String),
    Type(String),
    Enum(String),
    Comment(String),
}

/// One member declaration of an aggregate.
pub struct MemberDef {
    pub code: String,
    pub markup: Vec<MemberMarkup>,
}

/// An aggregate member: a comment line or a declaration.
pub enum TypeMember {
    Comment(String),
    Definition(MemberDef),
}

/// The body of a type declaration.
pub enum TypeSpec {
    Empty,
    Code(TypeCode),
    Members(Vec<TypeMember>),
}

/// A type declaration.
pub struct TypeDecl {
    pub name: Option<String>,
    pub api: Option<String>,
    pub alias: Option<String>,
    pub spec: TypeSpec,
}

/// How an enumeration variant or a constant gets its value.
pub enum EnumSpec {
    Reserved,
    Alias { alias: String, extends: Option<String> },
    Bitpos { bitpos: i64, extends: Option<String> },
    Value { value: String, extends: Option<String> },
    Offset,
}

/// An enumeration variant or a manifest constant.
pub struct EnumEntry {
    pub name: String,
    pub api: Option<String>,
    pub deprecated: bool,
    pub spec: EnumSpec,
}

/// An entry of an enumeration group.
pub enum EnumsChild {
    Enum(EnumEntry),
    Unused,
    Comment(String),
}

/// An enumeration group.
pub struct EnumGroup {
    pub name: Option<String>,
    pub bitwidth: Option<u32>,
    pub children: Vec<EnumsChild>,
}

/// A parameter, or a prototype, with its type and name.
pub struct CommandParam {
    pub name: String,
    pub code: String,
}

/// A command's concrete definition.
pub struct CommandDef {
    pub name: String,
    pub return_type: Option<String>,
    pub params: Vec<CommandParam>,
    pub cmdbufferlevel: Option<String>,
    pub renderpass: Option<String>,
    pub videocoding: Option<String>,
    pub queues: Option<String>,
    pub tasks: Option<String>,
}

/// A command: a definition, or another name for a command.
pub enum Command {
    Alias { name: String, alias: String },
    Definition(CommandDef),
}

/// A symbol named by a requirement block.
pub enum InterfaceItem {
    Type(String),
    Enum { name: String, api: Option<String> },
    Command(String),
    Other,
}

/// A block of a feature or an extension.
pub enum FeatureChild {
    Require(Vec<InterfaceItem>),
    Remove,
    Deprecate,
}

/// A feature or an extension, with its blocks.
pub struct Feature {
    pub name: String,
    pub children: Vec<FeatureChild>,
}

/// A top-level section of the registry.
pub enum RegistryChild {
    Types(Vec<TypeDecl>),
    Enums(EnumGroup),
    Commands(Vec<Command>),
    Feature(Feature),
    Extensions(Vec<Feature>),
    Other,
}

/// The kinds of failure.
#[derive(PartialEq, Eq, Structural, Clone, Copy, Debug)]
pub enum ErrorKind {
    NotFound,
    DuplicateDefinition,
    UnexpectedShape,
    UnresolvableIdentifier,
    CycleDetected,
    MarkerMismatch,
}

/// A failure, with the name of the symbol (or marker) it concerns.
#[derive(Debug)]
pub struct ConvertError {
    pub kind: ErrorKind,
    pub symbol: String,
}

/// A failure as contracts speak of it.
pub type Fault = (ErrorKind, Seq<char>);

pub open spec fn fault_of(e: ConvertError) -> Fault {
    (e.kind, e.symbol@)
}

pub fn fail(kind: ErrorKind, symbol: &[char]) -> (r: ConvertError)
    ensures
        fault_of(r) == (kind, symbol@),
{
    ConvertError { kind, symbol: string_of(symbol) }
}

fn fail_str(kind: ErrorKind, symbol: &str) -> (r: ConvertError)
    ensures
        fault_of(r) == (kind, symbol@),
{
    let c = crate::text::chars_of(symbol);
    fail(kind, c.as_slice())
}

// ---------------------------------------------------------------------------
// What the index holds

/// How a manifest constant gets its value, as contracts speak of it; the
/// flag tells whether the entry extends another group.
pub enum ValueView {
    Reserved,
    Alias(Seq<char>, bool),
    Bitpos(i64, bool),
    Value(Seq<char>, bool),
    Offset,
}

pub open spec fn value_view(s: EnumSpec) -> ValueView {
    match s {
        EnumSpec::Reserved => ValueView::Reserved,
        EnumSpec::Alias { alias, extends } => ValueView::Alias(alias@, extends is Some),
        EnumSpec::Bitpos { bitpos, extends } => ValueView::Bitpos(bitpos, extends is Some),
        EnumSpec::Value { value, extends } => ValueView::Value(value@, extends is Some),
        EnumSpec::Offset => ValueView::Offset,
    }
}

/// The index, as contracts speak of it.
pub struct IndexModel {
    pub types: Map<Seq<char>, TypeDecl>,
    pub commands: Map<Seq<char>, Command>,
    pub enums: Map<Seq<char>, EnumGroup>,
    pub consts: Map<Seq<char>, ValueView>,
    pub parents: Map<Seq<char>, Seq<char>>,
}

pub open spec fn empty_index() -> IndexModel {
    IndexModel {
        types: Map::empty(),
        commands: Map::empty(),
        enums: Map::empty(),
        consts: Map::empty(),
        parents: Map::empty(),
    }
}

pub open spec fn opt_is(o: Option<String>, lit: Seq<char>) -> bool {
    o matches Some(s) && s@ == lit
}

/// The first `Name` markup of a code declaration.
pub open spec fn first_name_markup(ms: Seq<CodeMarkup>) -> Option<Seq<char>>
    decreases ms.len(),
{
    if ms.len() == 0 {
        None
    } else {
        match ms[0] {
            CodeMarkup::Name(n) => Some(n@),
            _ => first_name_markup(ms.skip(1)),
        }
    }
}

/// The name a type is indexed under: its own, or else the name in its code.
pub open spec fn type_key(t: TypeDecl) -> Option<Seq<char>> {
    match t.name {
        Some(n) => Some(n@),
        None => match t.spec {
            TypeSpec::Code(c) => first_name_markup(c.markup@),
            _ => None,
        },
    }
}

/// Types of another target API are left out.
pub open spec fn type_kept(t: TypeDecl) -> bool {
    t.api is None || opt_is(t.api, "vulkan"@)
}

pub open spec fn types_step(r: Result<Map<Seq<char>, TypeDecl>, Fault>, t: TypeDecl) -> Result<
    Map<Seq<char>, TypeDecl>,
    Fault,
> {
    match r {
        Err(e) => Err(e),
        Ok(m) => if !type_kept(t) {
            Ok(m)
        } else {
            match type_key(t) {
                None => Err((ErrorKind::UnexpectedShape, Seq::empty())),
                Some(k) => if m.contains_key(k) {
                    Err((ErrorKind::DuplicateDefinition, k))
                } else {
                    Ok(m.insert(k, t))
                },
            }
        },
    }
}

pub open spec fn types_fold(m: Map<Seq<char>, TypeDecl>, ts: Seq<TypeDecl>) -> Result<
    Map<Seq<char>, TypeDecl>,
    Fault,
>
    decreases ts.len(),
{
    if ts.len() == 0 {
        Ok(m)
    } else {
        types_step(types_fold(m, ts.drop_last()), ts.last())
    }
}

/// The name a command is indexed under.
pub open spec fn command_key(c: Command) -> Seq<char> {
    match c {
        Command::Alias { name, .. } => name@,
        Command::Definition(d) => d.name@,
    }
}

pub open spec fn commands_step(r: Result<Map<Seq<char>, Command>, Fault>, c: Command) -> Result<
    Map<Seq<char>, Command>,
    Fault,
> {
    match r {
        Err(e) => Err(e),
        Ok(m) => if m.contains_key(command_key(c)) {
            Err((ErrorKind::DuplicateDefinition, command_key(c)))
        } else {
            Ok(m.insert(command_key(c), c))
        },
    }
}

pub open spec fn commands_fold(m: Map<Seq<char>, Command>, cs: Seq<Command>) -> Result<
    Map<Seq<char>, Command>,
    Fault,
>
    decreases cs.len(),
{
    if cs.len() == 0 {
        Ok(m)
    } else {
        commands_step(commands_fold(m, cs.drop_last()), cs.last())
    }
}

pub open spec fn consts_step(r: Result<Map<Seq<char>, ValueView>, Fault>, c: EnumsChild) -> Result<
    Map<Seq<char>, ValueView>,
    Fault,
> {
    match r {
        Err(e) => Err(e),
        Ok(m) => match c {
            EnumsChild::Enum(e) => Ok(m.insert(e.name@, value_view(e.spec))),
            _ => Err((ErrorKind::UnexpectedShape, "API Constants"@)),
        },
    }
}

pub open spec fn consts_fold(m: Map<Seq<char>, ValueView>, cs: Seq<EnumsChild>) -> Result<
    Map<Seq<char>, ValueView>,
    Fault,
>
    decreases cs.len(),
{
    if cs.len() == 0 {
        Ok(m)
    } else {
        consts_step(consts_fold(m, cs.drop_last()), cs.last())
    }
}

/// Membership after one requirement item of `owner`.
pub open spec fn item_parents(m: Map<Seq<char>, Seq<char>>, owner: Seq<char>, it: InterfaceItem) -> Map<
    Seq<char>,
    Seq<char>,
> {
    match it {
        InterfaceItem::Type(n) => add_parent(m, n@, owner),
        InterfaceItem::Command(n) => add_parent(m, n@, owner),
        InterfaceItem::Enum { name, api } => if opt_is(api, "vulkansc"@) {
            m
        } else {
            add_parent(m, name@, owner)
        },
        InterfaceItem::Other => m,
    }
}

pub open spec fn items_parents(
    m: Map<Seq<char>, Seq<char>>,
    owner: Seq<char>,
    items: Seq<InterfaceItem>,
) -> Map<Seq<char>, Seq<char>>
    decreases items.len(),
{
    if items.len() == 0 {
        m
    } else {
        item_parents(items_parents(m, owner, items.drop_last()), owner, items.last())
    }
}

pub open spec fn blocks_parents(
    m: Map<Seq<char>, Seq<char>>,
    owner: Seq<char>,
    bs: Seq<FeatureChild>,
) -> Map<Seq<char>, Seq<char>>
    decreases bs.len(),
{
    if bs.len() == 0 {
        m
    } else {
        let m1 = blocks_parents(m, owner, bs.drop_last());
        match bs.last() {
            FeatureChild::Require(items) => items_parents(m1, owner, items@),
            _ => m1,
        }
    }
}

pub open spec fn features_parents(m: Map<Seq<char>, Seq<char>>, fs: Seq<Feature>) -> Map<
    Seq<char>,
    Seq<char>,
>
    decreases fs.len(),
{
    if fs.len() == 0 {
        m
    } else {
        let m1 = features_parents(m, fs.drop_last());
        blocks_parents(m1, fs.last().name@, fs.last().children@)
    }
}

pub open spec fn enums_step(ix: IndexModel, g: EnumGroup) -> Result<IndexModel, Fault> {
    let consts = if opt_is(g.name, "API Constants"@) {
        consts_fold(ix.consts, g.children@)
    } else {
        Ok(ix.consts)
    };
    match consts {
        Err(e) => Err(e),
        Ok(c) => match g.name {
            None => Err((ErrorKind::UnexpectedShape, Seq::empty())),
            Some(n) => if ix.enums.contains_key(n@) {
                Err((ErrorKind::DuplicateDefinition, n@))
            } else {
                Ok(IndexModel { consts: c, enums: ix.enums.insert(n@, g), ..ix })
            },
        },
    }
}

/// The index after one more top-level section.
pub open spec fn child_step(ix: IndexModel, c: RegistryChild) -> Result<IndexModel, Fault> {
    match c {
        RegistryChild::Types(ts) => match types_fold(ix.types, ts@) {
            Ok(t) => Ok(IndexModel { types: t, ..ix }),
            Err(e) => Err(e),
        },
        RegistryChild::Commands(cs) => match commands_fold(ix.commands, cs@) {
            Ok(t) => Ok(IndexModel { commands: t, ..ix }),
            Err(e) => Err(e),
        },
        RegistryChild::Enums(g) => enums_step(ix, g),
        RegistryChild::Feature(f) => if f.name@ == "VKSC_VERSION_1_0"@ {
            Ok(ix)
        } else {
            Ok(IndexModel { parents: blocks_parents(ix.parents, f.name@, f.children@), ..ix })
        },
        RegistryChild::Extensions(fs) => Ok(
            IndexModel { parents: features_parents(ix.parents, fs@), ..ix },
        ),
        RegistryChild::Other => Ok(ix),
    }
}

/// The index of a registry, section by section; the first failure stops it.
pub open spec fn index_of_registry(cs: Seq<RegistryChild>) -> Result<IndexModel, Fault>
    decreases cs.len(),
{
    if cs.len() == 0 {
        Ok(empty_index())
    } else {
        match index_of_registry(cs.drop_last()) {
            Ok(ix) => child_step(ix, cs.last()),
            Err(e) => Err(e),
        }
    }
}

// ---------------------------------------------------------------------------
// Alias resolution

/// Where following the alias edges from a command name ends.
pub enum ChainEnd {
    Found(CommandDef, nat),
    Missing(Seq<char>),
    TooLong,
}

/// Follows alias edges from `name`, at most `fuel` of them. `Found(d, n)`:
/// the definition `d` was reached after exactly `n` dereferences.
pub open spec fn chain_end(cmds: Map<Seq<char>, Command>, name: Seq<char>, fuel: nat) -> ChainEnd
    decreases fuel,
{
    if !cmds.contains_key(name) {
        ChainEnd::Missing(name)
    } else {
        match cmds[name] {
            Command::Definition(d) => ChainEnd::Found(d, 0),
            Command::Alias { alias, .. } => if fuel == 0 {
                ChainEnd::TooLong
            } else {
                match chain_end(cmds, alias@, (fuel - 1) as nat) {
                    ChainEnd::Found(d, n) => ChainEnd::Found(d, n + 1),
                    other => other,
                }
            },
        }
    }
}

/// Alias resolution counts its dereferences: a definition resolves to
/// itself in none, and an alias resolves to what its target resolves to, in
/// one dereference more.
pub proof fn lemma_chain_counts(cmds: Map<Seq<char>, Command>, name: Seq<char>, fuel: nat)
    ensures
        cmds.contains_key(name) && cmds[name] is Definition ==> chain_end(cmds, name, fuel)
            == ChainEnd::Found(cmds[name]->Definition_0, 0),
        cmds.contains_key(name) && cmds[name] is Alias ==> match chain_end(
            cmds,
            cmds[name]->alias@,
            fuel,
        ) {
            ChainEnd::Found(d, n) => chain_end(cmds, name, fuel + 1) == ChainEnd::Found(d, n + 1),
            _ => true,
        },
{
}

/// A chain of alias names `names[0] -> names[1] -> ...` whose last name is
/// the definition `d` resolves, from its first name, in exactly
/// `names.len() - 1` dereferences to `d`, given that much fuel.
pub proof fn lemma_alias_chain(
    cmds: Map<Seq<char>, Command>,
    names: Seq<Seq<char>>,
    d: CommandDef,
    fuel: nat,
)
    requires
        names.len() >= 1,
        forall|i: int|
            0 <= i < names.len() - 1 ==> cmds.contains_key(#[trigger] names[i]) && cmds[names[i]] is Alias
                && cmds[names[i]]->alias@ == names[i + 1],
        cmds.contains_key(names.last()),
        cmds[names.last()] == Command::Definition(d),
        fuel >= names.len() - 1,
    ensures
        chain_end(cmds, names[0], fuel) == ChainEnd::Found(d, (names.len() - 1) as nat),
    decreases names.len(),
{
    if names.len() > 1 {
        let rest = names.skip(1);
        assert forall|i: int| 0 <= i < rest.len() - 1 implies cmds.contains_key(#[trigger] rest[i])
            && cmds[rest[i]] is Alias && cmds[rest[i]]->alias@ == rest[i + 1] by {
            assert(rest[i] == names[i + 1]);
            assert(rest[i + 1] == names[i + 2]);
        }
        assert(rest.last() == names.last());
        lemma_alias_chain(cmds, rest, d, (fuel - 1) as nat);
    }
}

/// Where following the alias edges between manifest constants ends.
pub enum ConstEnd {
    Found(Seq<char>),
    Missing(Seq<char>),
    TooLong,
    NotValue,
}

/// Follows alias edges from the constant `name`, at most `fuel` of them,
/// to the literal of the first constant that has one.
pub open spec fn const_end(consts: Map<Seq<char>, ValueView>, name: Seq<char>, fuel: nat) -> ConstEnd
    decreases fuel,
{
    if !consts.contains_key(name) {
        ConstEnd::Missing(name)
    } else {
        match consts[name] {
            ValueView::Value(v, _) => ConstEnd::Found(v),
            ValueView::Alias(a, _) => if fuel == 0 {
                ConstEnd::TooLong
            } else {
                const_end(consts, a, (fuel - 1) as nat)
            },
            _ => ConstEnd::NotValue,
        }
    }
}

pub open spec fn shift_end(e: ChainEnd, k: nat) -> ChainEnd {
    match e {
        ChainEnd::Found(d, n) => ChainEnd::Found(d, n + k),
        other => other,
    }
}

proof fn lemma_types_err(m: Map<Seq<char>, TypeDecl>, ts: Seq<TypeDecl>, k: int, e: Fault)
    requires
        0 <= k <= ts.len(),
        types_fold(m, ts.take(k)) == Err::<Map<Seq<char>, TypeDecl>, Fault>(e),
    ensures
        types_fold(m, ts) == Err::<Map<Seq<char>, TypeDecl>, Fault>(e),
    decreases ts.len() - k,
{
    if k < ts.len() {
        assert(ts.take(k + 1).drop_last() =~= ts.take(k));
        lemma_types_err(m, ts, k + 1, e);
    } else {
        assert(ts.take(k) =~= ts);
    }
}

proof fn lemma_commands_err(m: Map<Seq<char>, Command>, cs: Seq<Command>, k: int, e: Fault)
    requires
        0 <= k <= cs.len(),
        commands_fold(m, cs.take(k)) == Err::<Map<Seq<char>, Command>, Fault>(e),
    ensures
        commands_fold(m, cs) == Err::<Map<Seq<char>, Command>, Fault>(e),
    decreases cs.len() - k,
{
    if k < cs.len() {
        assert(cs.take(k + 1).drop_last() =~= cs.take(k));
        lemma_commands_err(m, cs, k + 1, e);
    } else {
        assert(cs.take(k) =~= cs);
    }
}

proof fn lemma_consts_err(m: Map<Seq<char>, ValueView>, cs: Seq<EnumsChild>, k: int, e: Fault)
    requires
        0 <= k <= cs.len(),
        consts_fold(m, cs.take(k)) == Err::<Map<Seq<char>, ValueView>, Fault>(e),
    ensures
        consts_fold(m, cs) == Err::<Map<Seq<char>, ValueView>, Fault>(e),
    decreases cs.len() - k,
{
    if k < cs.len() {
        assert(cs.take(k + 1).drop_last() =~= cs.take(k));
        lemma_consts_err(m, cs, k + 1, e);
    } else {
        assert(cs.take(k) =~= cs);
    }
}

proof fn lemma_registry_err(cs: Seq<RegistryChild>, k: int, e: Fault)
    requires
        0 <= k <= cs.len(),
        index_of_registry(cs.take(k)) == Err::<IndexModel, Fault>(e),
    ensures
        index_of_registry(cs) == Err::<IndexModel, Fault>(e),
    decreases cs.len() - k,
{
    if k < cs.len() {
        assert(cs.take(k + 1).drop_last() =~= cs.take(k));
        lemma_registry_err(cs, k + 1, e);
    } else {
        assert(cs.take(k) =~= cs);
    }
}

/// The symbol index.
pub struct Converter {
    types: Table<TypeDecl>,
    commands: Table<Command>,
    enums: Table<EnumGroup>,
    consts: Table<EnumEntry>,
    parents: Membership,
}

impl Converter {
    pub closed spec fn wf(&self) -> bool {
        self.types.wf() && self.commands.wf() && self.enums.wf() && self.consts.wf()
            && self.parents.wf()
    }

    /// What the index holds.
    pub closed spec fn view(&self) -> IndexModel {
        IndexModel {
            types: self.types@,
            commands: self.commands@,
            enums: self.enums@,
            consts: self.consts@.map_values(|e: EnumEntry| value_view(e.spec)),
            parents: self.parents@,
        }
    }

    /// How many commands the index holds: the most dereferences an alias
    /// chain may take.
    pub closed spec fn command_count(&self) -> nat {
        self.commands.size()
    }

    /// How many manifest constants the index holds: the most dereferences a
    /// constant's alias chain may take.
    pub closed spec fn const_count(&self) -> nat {
        self.consts.size()
    }

    /// How many manifest constants the index holds.
    pub fn const_len(&self) -> (r: usize)
        ensures
            r == self.const_count(),
    {
        self.consts.len()
    }

    /// Builds the index from the sections of a registry, in order. Fails on
    /// a name defined twice, on a type without a name, on an enumeration
    /// group without a name, and on a constants group holding anything but
    /// constants.
    pub fn new(registry: Vec<RegistryChild>) -> (r: Result<Converter, ConvertError>)
        ensures
            r matches Ok(c) ==> c.wf() && index_of_registry(registry@) == Ok::<IndexModel, Fault>(c@),
            r matches Err(e) ==> index_of_registry(registry@) == Err::<IndexModel, Fault>(fault_of(e)),
    {
        let mut this = Converter {
            types: Table::new(),
            commands: Table::new(),
            enums: Table::new(),
            consts: Table::new(),
            parents: Membership::new(),
        };
        proof {
            assert(this@.types =~= Map::empty());
            assert(this@.consts =~= Map::empty());
            assert(this@ == empty_index());
        }
        let ghost all = registry@;
        for child in it: registry.into_iter()
            invariant
                it.seq() == all,
                this.wf(),
                index_of_registry(all.take(it.index() as int)) == Ok::<IndexModel, Fault>(this@),
        {
            let ghost before = this@;
            let ghost idx = it.index() as int;
            proof {
                assert(all.take(idx + 1).drop_last() =~= all.take(idx));
                assert(all.take(idx + 1).last() == all[idx]);
            }
            let ghost c = child;
            match child {
                RegistryChild::Types(ts) => {
                    match this.add_types(ts) {
                        Ok(()) => {},
                        Err(e) => {
                            proof {
                                lemma_registry_err(all, idx + 1, fault_of(e));
                            }
                            return Err(e);
                        },
                    }
                },
                RegistryChild::Commands(cs) => {
                    match this.add_commands(cs) {
                        Ok(()) => {},
                        Err(e) => {
                            proof {
                                lemma_registry_err(all, idx + 1, fault_of(e));
                            }
                            return Err(e);
                        },
                    }
                },
                RegistryChild::Enums(g) => {
                    match this.add_enums(g) {
                        Ok(()) => {},
                        Err(e) => {
                            proof {
                                lemma_registry_err(all, idx + 1, fault_of(e));
                            }
                            return Err(e);
                        },
                    }
                },
                RegistryChild::Feature(f) => {
                    if !str_is(f.name.as_str(), "VKSC_VERSION_1_0") {
                        this.add_feature(&f);
                    }
                },
                RegistryChild::Extensions(fs) => {
                    let mut i: usize = 0;
                    while i < fs.len()
                        invariant
                            i <= fs@.len(),
                            this.wf(),
                            this@ == (IndexModel {
                                parents: features_parents(before.parents, fs@.take(i as int)),
                                ..before
                            }),
                        decreases fs@.len() - i,
                    {
                        proof {
                            assert(fs@.take(i + 1).drop_last() =~= fs@.take(i as int));
                        }
                        this.add_feature(&fs[i]);
                        i += 1;
                    }
                    proof {
                        assert(fs@.take(i as int) =~= fs@);
                    }
                },
                RegistryChild::Other => {},
            }
            proof {
                assert(child_step(before, c) == Ok::<IndexModel, Fault>(this@));
            }
        }
        proof {
            assert(all.take(all.len() as int) =~= all);
        }
        Ok(this)
    }

    /// The type declared under `name`.
    pub fn type_named(&self, name: &[char]) -> (r: Option<&TypeDecl>)
        requires
            self.wf(),
        ensures
            r matches Some(t) ==> self@.types.contains_key(name@) && self@.types[name@] == *t,
            r is None ==> !self@.types.contains_key(name@),
    {
        self.types.get(name)
    }

    /// The enumeration group declared under `name`.
    pub fn enum_named(&self, name: &[char]) -> (r: Option<&EnumGroup>)
        requires
            self.wf(),
        ensures
            r matches Some(g) ==> self@.enums.contains_key(name@) && self@.enums[name@] == *g,
            r is None ==> !self@.enums.contains_key(name@),
    {
        self.enums.get(name)
    }

    /// The manifest constant declared under `name`.
    pub fn const_named(&self, name: &[char]) -> (r: Option<&EnumEntry>)
        requires
            self.wf(),
        ensures
            r matches Some(c) ==> self@.consts.contains_key(name@) && self@.consts[name@]
                == value_view(c.spec),
            r is None ==> !self@.consts.contains_key(name@),
    {
        self.consts.get(name)
    }

    /// The owners recorded for `name`, joined.
    pub fn parents_of(&self, name: &str) -> (r: Option<&String>)
        requires
            self.wf(),
        ensures
            r matches Some(p) ==> self@.parents.contains_key(name@) && self@.parents[name@] == p@,
            r is None ==> !self@.parents.contains_key(name@),
    {
        self.parents.get(name)
    }

    /// Follows alias edges from the command `name` to its concrete
    /// definition. Returns the definition and the number of dereferences
    /// taken. Fails with `NotFound` on a name that no command has, and with
    /// `CycleDetected` where more dereferences than there are commands would
    /// be needed.
    pub fn resolve_command(&self, name: &str) -> (r: Result<(&CommandDef, usize), ConvertError>)
        requires
            self.wf(),
        ensures
            r matches Ok((d, n)) ==> chain_end(self@.commands, name@, self.command_count())
                == ChainEnd::Found(*d, n as nat),
            r matches Err(e) ==> match chain_end(self@.commands, name@, self.command_count()) {
                ChainEnd::Missing(m) => fault_of(e) == (ErrorKind::NotFound, m),
                ChainEnd::TooLong => fault_of(e) == (ErrorKind::CycleDetected, name@),
                ChainEnd::Found(_, _) => false,
            },
    {
        let fuel = self.commands.len();
        let mut cur = crate::text::chars_of(name);
        let mut steps: usize = 0;
        loop
            invariant
                self.wf(),
                steps <= fuel,
                fuel == self.command_count(),
                chain_end(self@.commands, name@, fuel as nat) == shift_end(
                    chain_end(self@.commands, cur@, (fuel - steps) as nat),
                    steps as nat,
                ),
            decreases fuel - steps,
        {
            match self.commands.get(cur.as_slice()) {
                None => {
                    return Err(fail(ErrorKind::NotFound, cur.as_slice()));
                },
                Some(Command::Definition(d)) => {
                    return Ok((d, steps));
                },
                Some(Command::Alias { alias, .. }) => {
                    if steps == fuel {
                        return Err(fail_str(ErrorKind::CycleDetected, name));
                    }
                    let next = crate::text::chars_of(alias.as_str());
                    proof {
                        let rest = chain_end(self@.commands, next@, (fuel - steps - 1) as nat);
                        assert(chain_end(self@.commands, cur@, (fuel - steps) as nat) == shift_end(
                            rest,
                            1,
                        ));
                    }
                    cur = next;
                    steps += 1;
                }
            }
        }
    }

    fn add_feature(&mut self, f: &Feature)
        requires
            old(self).wf(),
        ensures
            final(self).wf(),
            final(self)@ == (IndexModel {
                parents: blocks_parents(old(self)@.parents, f.name@, f.children@),
                ..old(self)@
            }),
    {
        let mut b: usize = 0;
        while b < f.children.len()
            invariant
                b <= f.children@.len(),
                self.wf(),
                self@ == (IndexModel {
                    parents: blocks_parents(old(self)@.parents, f.name@, f.children@.take(b as int)),
                    ..old(self)@
                }),
            decreases f.children@.len() - b,
        {
            proof {
                assert(f.children@.take(b + 1).drop_last() =~= f.children@.take(b as int));
            }
            match &f.children[b] {
                FeatureChild::Require(items) => {
                    let mut i: usize = 0;
                    let ghost m1 = self@.parents;
                    while i < items.len()
                        invariant
                            i <= items@.len(),
                            self.wf(),
                            self@ == (IndexModel {
                                parents: items_parents(m1, f.name@, items@.take(i as int)),
                                ..old(self)@
                            }),
                        decreases items@.len() - i,
                    {
                        proof {
                            assert(items@.take(i + 1).drop_last() =~= items@.take(i as int));
                        }
                        match &items[i] {
                            InterfaceItem::Type(n) => {
                                add_item_parent(&mut self.parents, n.as_str(), f.name.as_str());
                            },
                            InterfaceItem::Command(n) => {
                                add_item_parent(&mut self.parents, n.as_str(), f.name.as_str());
                            },
                            InterfaceItem::Enum { name, api } => {
                                let skip = match api {
                                    Some(a) => str_is(a.as_str(), "vulkansc"),
                                    None => false,
                                };
                                if !skip {
                                    add_item_parent(
                                        &mut self.parents,
                                        name.as_str(),
                                        f.name.as_str(),
                                    );
                                }
                            },
                            InterfaceItem::Other => {},
                        }
                        i += 1;
                    }
                    proof {
                        assert(items@.take(i as int) =~= items@);
                    }
                },
                _ => {},
            }
            b += 1;
        }
        proof {
            assert(f.children@.take(b as int) =~= f.children@);
        }
    }

    fn add_types(&mut self, ts: Vec<TypeDecl>) -> (r: Result<(), ConvertError>)
        requires
            old(self).wf(),
        ensures
            r is Ok ==> final(self).wf() && types_fold(old(self)@.types, ts@) == Ok::<
                Map<Seq<char>, TypeDecl>,
                Fault,
            >(final(self)@.types) && final(self)@ == (IndexModel {
                types: final(self)@.types,
                ..old(self)@
            }),
            r matches Err(e) ==> types_fold(old(self)@.types, ts@) == Err::<
                Map<Seq<char>, TypeDecl>,
                Fault,
            >(fault_of(e)),
    {
        let ghost all = ts@;
        let ghost start = self@;
        for t in it: ts.into_iter()
            invariant
                it.seq() == all,
                start == old(self)@,
                self.wf(),
                types_fold(start.types, all.take(it.index() as int)) == Ok::<
                    Map<Seq<char>, TypeDecl>,
                    Fault,
                >(self@.types),
                self@ == (IndexModel { types: self@.types, ..start }),
        {
            proof {
                let idx = it.index() as int;
                assert(all.take(idx + 1).drop_last() =~= all.take(idx));
            }
            let kept = match &t.api {
                Some(a) => str_is(a.as_str(), "vulkan"),
                None => true,
            };
            if kept {
                let key = match type_key_exec(&t) {
                    Some(k) => k,
                    None => {
                        let e = fail_str(ErrorKind::UnexpectedShape, "");
                        proof {
                            reveal_strlit("");
                            assert(e.symbol@ =~= Seq::<char>::empty());
                            lemma_types_err(start.types, all, it.index() + 1, fault_of(e));
                        }
                        return Err(e);
                    },
                };
                let kc = crate::text::chars_of(key.as_str());
                if self.types.get(kc.as_slice()).is_some() {
                    let e = fail(ErrorKind::DuplicateDefinition, kc.as_slice());
                    proof {
                        let idx = it.index() as int;
                        lemma_types_err(start.types, all, it.index() + 1, fault_of(e));
                    }
                    return Err(e);
                }
                self.types.insert(key, t);
            }
        }
        proof {
            assert(all.take(all.len() as int) =~= all);
        }
        Ok(())
    }

    fn add_commands(&mut self, cs: Vec<Command>) -> (r: Result<(), ConvertError>)
        requires
            old(self).wf(),
        ensures
            r is Ok ==> final(self).wf() && commands_fold(old(self)@.commands, cs@) == Ok::<
                Map<Seq<char>, Command>,
                Fault,
            >(final(self)@.commands) && final(self)@ == (IndexModel {
                commands: final(self)@.commands,
                ..old(self)@
            }),
            r matches Err(e) ==> commands_fold(old(self)@.commands, cs@) == Err::<
                Map<Seq<char>, Command>,
                Fault,
            >(fault_of(e)),
    {
        let ghost all = cs@;
        let ghost start = self@;
        for c in it: cs.into_iter()
            invariant
                it.seq() == all,
                start == old(self)@,
                self.wf(),
                commands_fold(start.commands, all.take(it.index() as int)) == Ok::<
                    Map<Seq<char>, Command>,
                    Fault,
                >(self@.commands),
                self@ == (IndexModel { commands: self@.commands, ..start }),
        {
            proof {
                let idx = it.index() as int;
                assert(all.take(idx + 1).drop_last() =~= all.take(idx));
            }
            let kc = match &c {
                Command::Alias { name, .. } => crate::text::chars_of(name.as_str()),
                Command::Definition(d) => crate::text::chars_of(d.name.as_str()),
            };
            if self.commands.get(kc.as_slice()).is_some() {
                let e = fail(ErrorKind::DuplicateDefinition, kc.as_slice());
                proof {
                    lemma_commands_err(start.commands, all, it.index() + 1, fault_of(e));
                }
                return Err(e);
            }
            self.commands.insert(string_of(kc.as_slice()), c);
        }
        proof {
            assert(all.take(all.len() as int) =~= all);
        }
        Ok(())
    }

    fn add_enums(&mut self, g: EnumGroup) -> (r: Result<(), ConvertError>)
        requires
            old(self).wf(),
        ensures
            r is Ok ==> final(self).wf() && enums_step(old(self)@, g) == Ok::<IndexModel, Fault>(
                final(self)@,
            ),
            r matches Err(e) ==> enums_step(old(self)@, g) == Err::<IndexModel, Fault>(
                fault_of(e),
            ),
    {
        let is_consts = match &g.name {
            Some(n) => str_is(n.as_str(), "API Constants"),
            None => false,
        };
        let ghost start = self@;
        if is_consts {
            let mut i: usize = 0;
            while i < g.children.len()
                invariant
                    i <= g.children@.len(),
                    opt_is(g.name, "API Constants"@),
                    start == old(self)@,
                    self.wf(),
                    consts_fold(start.consts, g.children@.take(i as int)) == Ok::<
                        Map<Seq<char>, ValueView>,
                        Fault,
                    >(self@.consts),
                    self@ == (IndexModel { consts: self@.consts, ..start }),
                decreases g.children@.len() - i,
            {
                proof {
                    assert(g.children@.take(i + 1).drop_last() =~= g.children@.take(i as int));
                }
                match &g.children[i] {
                    EnumsChild::Enum(e) => {
                        let ghost before_c = self@.consts;
                        let k = crate::text::chars_of(e.name.as_str());
                        let copy = copy_entry(e);
                        self.consts.insert(string_of(k.as_slice()), copy);
                        proof {
                            assert(self@.consts =~= before_c.insert(e.name@, value_view(e.spec)));
                        }
                    },
                    _ => {
                        let err = fail_str(ErrorKind::UnexpectedShape, "API Constants");
                        proof {
                            lemma_consts_err(start.consts, g.children@, i + 1, fault_of(err));
                        }
                        return Err(err);
                    },
                }
                i += 1;
            }
            proof {
                assert(g.children@.take(i as int) =~= g.children@);
            }
        }
        let name = match &g.name {
            Some(n) => crate::text::chars_of(n.as_str()),
            None => {
                let e = fail_str(ErrorKind::UnexpectedShape, "");
                proof {
                    reveal_strlit("");
                    assert(e.symbol@ =~= Seq::<char>::empty());
                }
                return Err(e);
            },
        };
        if self.enums.get(name.as_slice()).is_some() {
            return Err(fail(ErrorKind::DuplicateDefinition, name.as_slice()));
        }
        self.enums.insert(string_of(name.as_slice()), g);
        Ok(())
    }
}

fn copy_string(s: &String) -> (r: String)
    ensures
        r@ == s@,
{
    let c = crate::text::chars_of(s.as_str());
    string_of(c.as_slice())
}

fn copy_opt(s: &Option<String>) -> (r: Option<String>)
    ensures
        r is Some <==> s is Some,
        r matches Some(x) ==> x@ == s->0@,
{
    match s {
        Some(x) => Some(copy_string(x)),
        None => None,
    }
}

/// A copy of an enumeration entry.
fn copy_entry(e: &EnumEntry) -> (r: EnumEntry)
    ensures
        r.name@ == e.name@,
        value_view(r.spec) == value_view(e.spec),
{
    let spec = match &e.spec {
        EnumSpec::Reserved => EnumSpec::Reserved,
        EnumSpec::Alias { alias, extends } => EnumSpec::Alias {
            alias: copy_string(alias),
            extends: copy_opt(extends),
        },
        EnumSpec::Bitpos { bitpos, extends } => EnumSpec::Bitpos {
            bitpos: *bitpos,
            extends: copy_opt(extends),
        },
        EnumSpec::Value { value, extends } => EnumSpec::Value {
            value: copy_string(value),
            extends: copy_opt(extends),
        },
        EnumSpec::Offset => EnumSpec::Offset,
    };
    EnumEntry { name: copy_string(&e.name), api: copy_opt(&e.api), deprecated: e.deprecated, spec }
}

fn first_name_markup_exec(ms: &Vec<CodeMarkup>) -> (r: Option<String>)
    ensures
        r matches Some(s) ==> first_name_markup(ms@) == Some(s@),
        r is None ==> first_name_markup(ms@) is None,
{
    let mut i: usize = 0;
    assert(ms@.skip(0) =~= ms@);
    while i < ms.len()
        invariant
            i <= ms@.len(),
            first_name_markup(ms@) == first_name_markup(ms@.skip(i as int)),
        decreases ms@.len() - i,
    {
        assert(ms@.skip(i as int).skip(1) =~= ms@.skip(i + 1));
        match &ms[i] {
            CodeMarkup::Name(n) => {
                return Some(copy_string(n));
            },
            _ => {},
        }
        i += 1;
    }
    None
}

fn type_key_exec(t: &TypeDecl) -> (r: Option<String>)
    ensures
        r matches Some(s) ==> type_key(*t) == Some(s@),
        r is None ==> type_key(*t) is None,
{
    match &t.name {
        Some(n) => Some(copy_string(n)),
        None => match &t.spec {
            TypeSpec::Code(c) => first_name_markup_exec(&c.markup),
            _ => None,
        },
    }
}

} // verus!
