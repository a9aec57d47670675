use vkdecl::registry::{
    CodeMarkup, Command, CommandDef, CommandParam, Converter, EnumEntry, EnumGroup, EnumSpec,
    EnumsChild, ErrorKind, Feature, FeatureChild, InterfaceItem, MemberDef, MemberMarkup,
    RegistryChild, TypeCode, TypeDecl, TypeMember, TypeSpec,
};

fn s(x: &str) -> String {
    x.to_string()
}

fn code_type(code: &str, markup: Vec<CodeMarkup>) -> TypeDecl {
    TypeDecl {
        name: None,
        api: None,
        alias: None,
        spec: TypeSpec::Code(TypeCode { code: s(code), markup }),
    }
}

fn alias_type(name: &str, alias: &str) -> TypeDecl {
    TypeDecl { name: Some(s(name)), api: None, alias: Some(s(alias)), spec: TypeSpec::Empty }
}

fn member(code: &str, ty: &str, name: &str, comment: Option<&str>) -> TypeMember {
    let mut markup = vec![MemberMarkup::Type(s(ty)), MemberMarkup::Name(s(name))];
    if let Some(c) = comment {
        markup.push(MemberMarkup::Comment(s(c)));
    }
    TypeMember::Definition(MemberDef { code: s(code), markup })
}

fn entry(name: &str, spec: EnumSpec) -> EnumsChild {
    EnumsChild::Enum(EnumEntry { name: s(name), api: None, deprecated: false, spec })
}

fn value(v: &str) -> EnumSpec {
    EnumSpec::Value { value: s(v), extends: None }
}

fn bit(b: i64) -> EnumSpec {
    EnumSpec::Bitpos { bitpos: b, extends: None }
}

fn param(name: &str, code: &str) -> CommandParam {
    CommandParam { name: s(name), code: s(code) }
}

fn group(d: &str) -> String {
    let parts: Vec<&str> = d.split("\u{0}").collect();
    format!(
        "::code-group\n```c [C]\n{}\n```\n```rs [Rust]\n{}\n```\n::",
        parts[0], parts[1]
    )
}

fn sample_registry() -> Vec<RegistryChild> {
    let types = vec![
        TypeDecl {
            name: Some(s("VkFoo")),
            api: None,
            alias: None,
            spec: TypeSpec::Members(vec![
                member("VkStructureType sType", "VkStructureType", "sType", None),
                member("const void*            pNext", "void", "pNext", None),
                TypeMember::Comment(s("extra")),
                member("uint32_t count", "uint32_t", "count", Some("how many")),
            ]),
        },
        alias_type("VkFooKHR", "VkFoo"),
        code_type(
            "typedef VkFlags VkCullModeFlags;",
            vec![CodeMarkup::Type(s("VkFlags")), CodeMarkup::Name(s("VkCullModeFlags"))],
        ),
        code_type(
            "typedef VkFlags64 VkAccessFlags2;",
            vec![CodeMarkup::Type(s("VkFlags64")), CodeMarkup::Name(s("VkAccessFlags2"))],
        ),
        alias_type("VkAccessFlags2KHR", "VkAccessFlags2"),
        code_type(
            "VK_DEFINE_HANDLE(VkInstance)",
            vec![CodeMarkup::Type(s("VK_DEFINE_HANDLE")), CodeMarkup::Name(s("VkInstance"))],
        ),
        alias_type("VkThingKHR", "VkThing"),
        code_type(
            "#define VK_API_VERSION_1_0 VK_MAKE_API_VERSION(0, 1, 0, 0)",
            vec![CodeMarkup::Name(s("VK_API_VERSION_1_0"))],
        ),
        code_type(
            "typedef uint32_t VkBool32;",
            vec![CodeMarkup::Type(s("uint32_t")), CodeMarkup::Name(s("VkBool32"))],
        ),
        code_type(
            "typedef void* (VKAPI_PTR *PFN_vkAllocationFunction)(void* pUserData, size_t size, size_t alignment, VkSystemAllocationScope allocationScope);",
            vec![CodeMarkup::Name(s("PFN_vkAllocationFunction"))],
        ),
        code_type(
            "typedef void (VKAPI_PTR *PFN_vkVoidFunction)(void);",
            vec![CodeMarkup::Name(s("PFN_vkVoidFunction"))],
        ),
        code_type(
            "typedef void (VKAPI_PTR *PFN_vkFreeFunction)(\n    void*                                       pUserData,\n    void*                                       pMemory);",
            vec![CodeMarkup::Name(s("PFN_vkFreeFunction"))],
        ),
        alias_type("VkCullModeFlagBitsKHR", "VkCullModeFlagBits"),
        TypeDecl {
            name: Some(s("VkFoo")),
            api: Some(s("vulkansc")),
            alias: None,
            spec: TypeSpec::Empty,
        },
    ];
    let consts = EnumGroup {
        name: Some(s("API Constants")),
        bitwidth: None,
        children: vec![
            entry("VK_MAX_NAME_SIZE", value("256")),
            entry("VK_LOD_CLAMP_NONE", value("1000.0F")),
            entry("VK_REMAINING_MIP_LEVELS", value("(~0U)")),
            entry(
                "VK_MAX_NAME_SIZE_KHR",
                EnumSpec::Alias { alias: s("VK_MAX_NAME_SIZE"), extends: None },
            ),
        ],
    };
    let cull = EnumGroup {
        name: Some(s("VkCullModeFlagBits")),
        bitwidth: None,
        children: vec![
            entry("VK_CULL_MODE_NONE", value("0")),
            entry("VK_CULL_MODE_FRONT_BIT", bit(0)),
            entry("VK_CULL_MODE_BACK_BIT", bit(1)),
            EnumsChild::Comment(s("both")),
            entry("VK_CULL_MODE_FRONT_AND_BACK", value("0x00000003")),
            entry(
                "VK_CULL_MODE_FRONT_BIT_KHR",
                EnumSpec::Alias { alias: s("VK_CULL_MODE_FRONT_BIT"), extends: None },
            ),
            EnumsChild::Enum(EnumEntry {
                name: s("VK_CULL_MODE_OLD"),
                api: None,
                deprecated: true,
                spec: value("7"),
            }),
            EnumsChild::Unused,
        ],
    };
    let access = EnumGroup {
        name: Some(s("VkAccessFlagBits2")),
        bitwidth: Some(64),
        children: vec![entry("VK_ACCESS_2_HOST_READ_BIT", bit(40))],
    };
    let commands = vec![
        Command::Definition(CommandDef {
            name: s("vkCreateThing"),
            return_type: Some(s("VkResult")),
            params: vec![
                param("device", "VkDevice device"),
                param("pInfo", "const VkThingInfo* pInfo"),
            ],
            cmdbufferlevel: None,
            renderpass: None,
            videocoding: None,
            queues: Some(s("graphics,compute")),
            tasks: None,
        }),
        Command::Alias { name: s("vkCreateThingKHR"), alias: s("vkCreateThing") },
        Command::Alias { name: s("vkCreateThingEXT"), alias: s("vkCreateThingKHR") },
        Command::Definition(CommandDef {
            name: s("vkCmdDraw"),
            return_type: Some(s("void")),
            params: vec![
                param("commandBuffer", "VkCommandBuffer commandBuffer"),
                param("vertexCount", "uint32_t vertexCount"),
            ],
            cmdbufferlevel: Some(s("primary,secondary")),
            renderpass: Some(s("inside")),
            videocoding: Some(s("outside")),
            queues: Some(s("graphics")),
            tasks: Some(s("action")),
        }),
        Command::Alias { name: s("vkLoopA"), alias: s("vkLoopB") },
        Command::Alias { name: s("vkLoopB"), alias: s("vkLoopA") },
        Command::Alias { name: s("vkDangling"), alias: s("vkNowhere") },
    ];
    let core = Feature {
        name: s("VK_VERSION_1_0"),
        children: vec![
            FeatureChild::Require(vec![
                InterfaceItem::Type(s("VkFoo")),
                InterfaceItem::Command(s("vkCreateThing")),
                InterfaceItem::Enum { name: s("VK_MAX_NAME_SIZE"), api: None },
                InterfaceItem::Enum { name: s("VK_SC_ONLY"), api: Some(s("vulkansc")) },
            ]),
            FeatureChild::Remove,
        ],
    };
    let sc = Feature {
        name: s("VKSC_VERSION_1_0"),
        children: vec![FeatureChild::Require(vec![InterfaceItem::Type(s("VkFoo"))])],
    };
    let exts = vec![Feature {
        name: s("VK_EXT_foo"),
        children: vec![FeatureChild::Require(vec![
            InterfaceItem::Type(s("VkFoo")),
            InterfaceItem::Command(s("vkCmdDraw")),
            InterfaceItem::Other,
        ])],
    }];
    vec![
        RegistryChild::Types(types),
        RegistryChild::Enums(consts),
        RegistryChild::Enums(cull),
        RegistryChild::Enums(access),
        RegistryChild::Commands(commands),
        RegistryChild::Feature(core),
        RegistryChild::Feature(sc),
        RegistryChild::Extensions(exts),
        RegistryChild::Other,
    ]
}

fn converter() -> Converter {
    match Converter::new(sample_registry()) {
        Ok(c) => c,
        Err(e) => panic!("index failed: {:?}", e),
    }
}

#[test]
fn index_records_membership_in_order() {
    let c = converter();
    assert_eq!(c.parents_of("VkFoo").map(|x| x.as_str()), Some("VK_VERSION_1_0, VK_EXT_foo"));
    assert_eq!(c.parents_of("vkCmdDraw").map(|x| x.as_str()), Some("VK_EXT_foo"));
    assert_eq!(c.parents_of("VK_MAX_NAME_SIZE").map(|x| x.as_str()), Some("VK_VERSION_1_0"));
    assert_eq!(c.parents_of("VK_SC_ONLY"), None);
    assert_eq!(c.parents_of("VkBool32"), None);
}

#[test]
fn duplicate_type_is_fatal() {
    let mut r = sample_registry();
    r.push(RegistryChild::Types(vec![alias_type("VkFooKHR", "VkFoo")]));
    match Converter::new(r) {
        Err(e) => {
            assert_eq!(e.kind, ErrorKind::DuplicateDefinition);
            assert_eq!(e.symbol, "VkFooKHR");
        },
        Ok(_) => panic!("duplicate accepted"),
    }
}

#[test]
fn duplicate_command_is_fatal() {
    let mut r = sample_registry();
    r.push(RegistryChild::Commands(vec![Command::Alias {
        name: s("vkCmdDraw"),
        alias: s("vkCreateThing"),
    }]));
    match Converter::new(r) {
        Err(e) => assert_eq!(e.kind, ErrorKind::DuplicateDefinition),
        Ok(_) => panic!("duplicate accepted"),
    }
}

#[test]
fn unnamed_group_is_fatal() {
    let r = vec![RegistryChild::Enums(EnumGroup { name: None, bitwidth: None, children: vec![] })];
    match Converter::new(r) {
        Err(e) => assert_eq!(e.kind, ErrorKind::UnexpectedShape),
        Ok(_) => panic!("unnamed group accepted"),
    }
}

#[test]
fn direct_command_resolves_without_dereference() {
    let c = converter();
    let (d, n) = c.resolve_command("vkCreateThing").unwrap();
    assert_eq!(d.name, "vkCreateThing");
    assert_eq!(n, 0);
}

#[test]
fn alias_chain_counts_dereferences() {
    let c = converter();
    let (d, n) = c.resolve_command("vkCreateThingEXT").unwrap();
    assert_eq!(d.name, "vkCreateThing");
    assert_eq!(n, 2);
    let (_, m) = c.resolve_command("vkCreateThingKHR").unwrap();
    assert_eq!(m, 1);
}

#[test]
fn broken_alias_chains_fail() {
    let c = converter();
    match c.resolve_command("vkDangling") {
        Err(e) => {
            assert_eq!(e.kind, ErrorKind::NotFound);
            assert_eq!(e.symbol, "vkNowhere");
        },
        Ok(_) => panic!("dangling alias resolved"),
    }
    match c.resolve_command("vkLoopA") {
        Err(e) => assert_eq!(e.kind, ErrorKind::CycleDetected),
        Ok(_) => panic!("cycle resolved"),
    }
    match c.resolve_command("vkMissing") {
        Err(e) => assert_eq!(e.kind, ErrorKind::NotFound),
        Ok(_) => panic!("missing command resolved"),
    }
}

#[test]
fn aggregate_with_pointer_member() {
    let c = converter();
    let expected = group(
        "typedef struct VkFoo {\n    VkStructureType sType;\n    const void* pNext;\n    // extra;\n    uint32_t count;\n} VkFoo;\u{0}pub struct Foo {\n    s_type: vk::StructureType,\n    p_next: *const std::ffi::c_void,\n    /// extra,\n    count: u32 // how many,\n}",
    );
    assert_eq!(c.generate_api_struct("VkFoo").unwrap(), expected);
}

#[test]
fn aggregate_alias() {
    let c = converter();
    assert_eq!(
        c.generate_api_struct("VkFooKHR").unwrap(),
        group("typedef VkFoo VkFooKHR;\u{0}type FooKHR = vk::Foo;")
    );
    match c.generate_api_struct("VkMissing") {
        Err(e) => assert_eq!(e.kind, ErrorKind::NotFound),
        Ok(_) => panic!("missing struct rendered"),
    }
    match c.generate_api_struct("VkBool32") {
        Err(e) => assert_eq!(e.kind, ErrorKind::UnexpectedShape),
        Ok(_) => panic!("base type rendered as struct"),
    }
}

#[test]
fn bitmask_types() {
    let c = converter();
    assert_eq!(
        c.generate_flags("VkCullModeFlags").unwrap(),
        group("typedef VkFlags VkCullModeFlags;\u{0}pub struct CullModeFlags(u32);")
    );
    assert_eq!(
        c.generate_flags("VkAccessFlags2").unwrap(),
        group("typedef VkFlags64 VkAccessFlags2;\u{0}pub struct AccessFlags2(u64);")
    );
    assert_eq!(
        c.generate_flags("VkAccessFlags2KHR").unwrap(),
        group("typedef VkAccessFlags2 VkAccessFlags2KHR;\u{0}pub type AccessFlags2KHR = vk::AccessFlags2;")
    );
}

#[test]
fn handles() {
    let c = converter();
    assert_eq!(
        c.generate_handles("VkInstance").unwrap(),
        group("VK_DEFINE_HANDLE(VkInstance)\u{0}#[repr(transparent)]\npub struct Instance(_);")
    );
    assert_eq!(
        c.generate_handles("VkThingKHR").unwrap(),
        group("typedef VkThing VkThingKHR;\u{0}type ThingKHR = vk::Thing;")
    );
}

#[test]
fn defines_and_base_types() {
    let c = converter();
    assert_eq!(
        c.generate_define("VK_API_VERSION_1_0").unwrap(),
        "```c\n#define VK_API_VERSION_1_0 VK_MAKE_API_VERSION(0, 1, 0, 0)\n```\n"
    );
    assert_eq!(
        c.generate_basetype("VkBool32").unwrap(),
        "```c\ntypedef uint32_t VkBool32;\n```"
    );
}

#[test]
fn enumeration_group() {
    let c = converter();
    let expected = group(
        "typedef enum VkCullModeFlagBits {\n    VK_CULL_MODE_NONE = 0,\n    VK_CULL_MODE_FRONT_BIT = 0x00000001,\n    VK_CULL_MODE_BACK_BIT = 0x00000002,\n    // both,\n    VK_CULL_MODE_FRONT_AND_BACK = 0x00000003,\n    VK_CULL_MODE_FRONT_BIT_KHR = VK_CULL_MODE_FRONT_BIT,\n    VK_CULL_MODE_OLD = 7,\n    ,\n} VkCullModeFlagBits;\u{0}pub struct CullModeFlagBits(u32);\nimpl CullModeFlagBits {\n    pub const NONE: Self = 0;\n    pub const FRONT: Self = 0x00000001;\n    pub const BACK: Self = 0x00000002;\n    // both\n    pub const FRONT_AND_BACK: Self = 0x00000003;\n    pub const FRONT_KHR: Self = Self::FRONT;\n}",
    );
    assert_eq!(c.generate_enum("VkCullModeFlagBits").unwrap(), expected);
}

#[test]
fn wide_enumeration_group() {
    let c = converter();
    let expected = group(
        "typedef enum VkAccessFlagBits2 {\n    VK_ACCESS_2_HOST_READ_BIT = 0x10000000000ULL,\n} VkAccessFlagBits2;\u{0}pub struct AccessFlagBits2(u64);\nimpl AccessFlagBits2 {\n    pub const HOST_READ: Self = 0x10000000000;\n}",
    );
    assert_eq!(c.generate_enum("VkAccessFlagBits2").unwrap(), expected);
}

#[test]
fn manifest_constants() {
    let c = converter();
    assert_eq!(
        c.generate_enum("VK_REMAINING_MIP_LEVELS").unwrap(),
        group("#define VK_REMAINING_MIP_LEVELS (~0U)\u{0}const REMAINING_MIP_LEVELS: u32 = !0u32;")
    );
    assert_eq!(
        c.generate_enum("VK_LOD_CLAMP_NONE").unwrap(),
        group("#define VK_LOD_CLAMP_NONE 1000.0F\u{0}const LOD_CLAMP_NONE: f32 = 1000.0f32;")
    );
    assert_eq!(
        c.generate_enum("VK_MAX_NAME_SIZE_KHR").unwrap(),
        group("#define VK_MAX_NAME_SIZE_KHR VK_MAX_NAME_SIZE\u{0}const MAX_NAME_SIZE_KHR: usize = vk::MAX_NAME_SIZE;")
    );
}

#[test]
fn enumeration_alias() {
    let c = converter();
    assert_eq!(
        c.generate_enum("VkCullModeFlagBitsKHR").unwrap(),
        group("#define VkCullModeFlagBitsKHR VkCullModeFlagBits\u{0}const CullModeFlagBitsKHR: _ = vk::CullModeFlagBits;")
    );
    match c.generate_enum("VkNothing") {
        Err(e) => assert_eq!(e.kind, ErrorKind::NotFound),
        Ok(_) => panic!("missing enum rendered"),
    }
}

#[test]
fn unresolvable_variant_is_reported() {
    let r = vec![RegistryChild::Enums(EnumGroup {
        name: Some(s("VkImageLayout")),
        bitwidth: None,
        children: vec![entry("VK_FORMAT_UNDEFINED", value("0"))],
    })];
    let c = Converter::new(r).unwrap();
    match c.generate_enum("VkImageLayout") {
        Err(e) => {
            assert_eq!(e.kind, ErrorKind::UnresolvableIdentifier);
            assert_eq!(e.symbol, "VK_FORMAT_UNDEFINED");
        },
        Ok(_) => panic!("unconventional variant rendered"),
    }
}

#[test]
fn command_prototype_through_aliases() {
    let c = converter();
    assert_eq!(
        c.generate_fn_prototype("vkCreateThing").unwrap(),
        group("VkResult vkCreateThing(\n    VkDevice device,\n    const VkThingInfo* pInfo);\u{0}pub fn create_thing(\n    device: vk::Device,\n    p_info: const VkThingInfo*,\n) -> vk::Result;")
    );
    assert_eq!(
        c.generate_fn_prototype("vkCreateThingKHR").unwrap(),
        group("VkResult vkCreateThingKHR(\n    VkDevice device,\n    const VkThingInfo* pInfo);\u{0}pub fn create_thing_khr(\n    device: vk::Device,\n    p_info: const VkThingInfo*,\n) -> vk::Result;")
    );
    assert_eq!(
        c.generate_fn_prototype("vkCmdDraw").unwrap(),
        group("void vkCmdDraw(\n    VkCommandBuffer commandBuffer,\n    uint32_t vertexCount);\u{0}pub fn cmd_draw(\n    command_buffer: vk::CommandBuffer,\n    vertex_count: u32,\n);")
    );
}

#[test]
fn command_attributes() {
    let c = converter();
    assert_eq!(
        c.fn_attributes("vkCmdDraw").unwrap(),
        "cmd_buf_level: [primary,secondary]\nrender_pass_scope: inside\nvideo_coding_scope: outside\nsupported_queue_types: [graphics]\ntasks: [action]\n"
    );
    assert_eq!(
        c.fn_attributes("vkCreateThingEXT").unwrap(),
        "supported_queue_types: [graphics,compute]\n"
    );
}

#[test]
fn function_pointers() {
    let c = converter();
    assert_eq!(
        c.generate_fn_ptr("PFN_vkAllocationFunction").unwrap(),
        group("typedef void* (VKAPI_PTR *PFN_vkAllocationFunction)(void* pUserData, size_t size, size_t alignment, VkSystemAllocationScope allocationScope);\u{0}pub type PFN_vkAllocationFunction = Option<\n    unsafe extern \"system\" fn(\n        p_user_data: *mut std::ffi::c_void,\n        size: usize,\n        alignment: usize,\n        allocation_scope: vk::SystemAllocationScope,\n    ) -> *mut std::ffi::c_void\n>;")
    );
    assert_eq!(
        c.generate_fn_ptr("PFN_vkVoidFunction").unwrap(),
        group("typedef void (VKAPI_PTR *PFN_vkVoidFunction)(void);\u{0}pub type PFN_vkVoidFunction = Option<\n    unsafe extern \"system\" fn(\n\n    ) -> std::ffi::c_void\n>;")
    );
    assert_eq!(
        c.generate_fn_ptr("PFN_vkFreeFunction").unwrap(),
        group("typedef void (VKAPI_PTR *PFN_vkFreeFunction)(\n    void*                                       pUserData,\n    void*                                       pMemory);\u{0}pub type PFN_vkFreeFunction = Option<\n    unsafe extern \"system\" fn(\n        p_user_data: *mut std::ffi::c_void,\n        p_memory: *mut std::ffi::c_void,\n    ) -> std::ffi::c_void\n>;")
    );
}

#[test]
fn document_markers_are_replaced() {
    let c = converter();
    let mut doc = s("---\ntitle: VkFoo\n---\n# VkFoo\n\n[{generated}/api/structs/VkFoo.adoc]({generated}/api/structs/VkFoo.adoc)\n\nText.\n");
    let block = c.generate_api_struct("VkFoo").unwrap();
    assert_eq!(c.convert_file(&mut doc).unwrap(), true);
    assert_eq!(
        doc,
        format!("---\nparent: VK_VERSION_1_0, VK_EXT_foo\ntitle: VkFoo\n---\n# VkFoo\n\n{}\n\nText.\n", block)
    );
}

#[test]
fn converted_document_is_left_alone() {
    let c = converter();
    let mut doc = s("---\ntitle: VkFoo\n---\n[{generated}/api/flags/VkCullModeFlags.adoc]({generated}/api/flags/VkCullModeFlags.adoc)\n");
    assert_eq!(c.convert_file(&mut doc).unwrap(), true);
    let once = doc.clone();
    assert_eq!(c.convert_file(&mut doc).unwrap(), false);
    assert_eq!(doc, once);
}

#[test]
fn prototype_marker_adds_attributes() {
    let c = converter();
    let mut doc = s("---\ntitle: vkCmdDraw\n---\n[{generated}/api/protos/vkCmdDraw.adoc]({generated}/api/protos/vkCmdDraw.adoc)\n");
    let block = c.generate_fn_prototype("vkCmdDraw").unwrap();
    assert_eq!(c.convert_file(&mut doc).unwrap(), true);
    assert_eq!(
        doc,
        format!("---\nparent: VK_EXT_foo\ncmd_buf_level: [primary,secondary]\nrender_pass_scope: inside\nvideo_coding_scope: outside\nsupported_queue_types: [graphics]\ntasks: [action]\ntitle: vkCmdDraw\n---\n{}\n", block)
    );
}

#[test]
fn escaped_underscores_match() {
    let c = converter();
    let mut doc = s("---\ntitle: X\n---\n[{generated}/api/enums/VK\\_REMAINING\\_MIP\\_LEVELS.adoc]({generated}/api/enums/VK_REMAINING_MIP_LEVELS.adoc)");
    let block = c.generate_enum("VK_REMAINING_MIP_LEVELS").unwrap();
    assert_eq!(c.convert_file(&mut doc).unwrap(), true);
    assert_eq!(doc, format!("---\ntitle: X\n---\n{}", block));
}

#[test]
fn mismatched_marker_is_fatal() {
    let c = converter();
    let mut doc = s("---\n[{generated}/api/structs/VkFoo.adoc]({generated}/api/structs/VkBar.adoc)\n");
    let before = doc.clone();
    match c.convert_file(&mut doc) {
        Err(e) => assert_eq!(e.kind, ErrorKind::MarkerMismatch),
        Ok(_) => panic!("mismatch accepted"),
    }
    assert_eq!(doc, before);
}

#[test]
fn unknown_marker_path_is_skipped() {
    let c = converter();
    let mut doc = s("---\ntitle: VkFoo\n---\n[{generated}/api/other/VkFoo.adoc]({generated}/api/other/VkFoo.adoc)\n");
    let before = doc.clone();
    assert_eq!(c.convert_file(&mut doc).unwrap(), false);
    assert_eq!(doc, before);
}

#[test]
fn missing_symbol_is_fatal() {
    let c = converter();
    let mut doc = s("---\n[{generated}/api/structs/VkNope.adoc]({generated}/api/structs/VkNope.adoc)\n");
    match c.convert_file(&mut doc) {
        Err(e) => {
            assert_eq!(e.kind, ErrorKind::NotFound);
            assert_eq!(e.symbol, "VkNope");
        },
        Ok(_) => panic!("missing symbol rendered"),
    }
}

#[test]
fn document_without_front_matter_is_rejected_when_attributes_exist() {
    let c = converter();
    let mut doc = s("title: none\n[{generated}/api/protos/vkCmdDraw.adoc]({generated}/api/protos/vkCmdDraw.adoc)\n");
    match c.convert_file(&mut doc) {
        Err(e) => assert_eq!(e.kind, ErrorKind::UnexpectedShape),
        Ok(_) => panic!("attributes spliced without front matter"),
    }
}

#[test]
fn aggregate_with_array_members() {
    let r = vec![RegistryChild::Types(vec![TypeDecl {
        name: Some(s("VkBar")),
        api: None,
        alias: None,
        spec: TypeSpec::Members(vec![
            TypeMember::Definition(MemberDef {
                code: s("char deviceName[VK_MAX_PHYSICAL_DEVICE_NAME_SIZE]"),
                markup: vec![
                    MemberMarkup::Type(s("char")),
                    MemberMarkup::Name(s("deviceName")),
                    MemberMarkup::Enum(s("VK_MAX_PHYSICAL_DEVICE_NAME_SIZE")),
                ],
            }),
            member("float   color[4]", "float", "color", None),
        ]),
    }])];
    let c = Converter::new(r).unwrap();
    assert_eq!(
        c.generate_api_struct("VkBar").unwrap(),
        group("typedef struct VkBar {\n    char deviceName[VK_MAX_PHYSICAL_DEVICE_NAME_SIZE];\n    float color[4];\n} VkBar;\u{0}pub struct Bar {\n    device_name: [std::ffi::c_char; vk::MAX_PHYSICAL_DEVICE_NAME_SIZE],\n    color: [f32; 4],\n}")
    );
}

#[test]
fn member_name_inside_its_type() {
    let r = vec![RegistryChild::Types(vec![TypeDecl {
        name: Some(s("VkSpecializationMapEntry")),
        api: None,
        alias: None,
        spec: TypeSpec::Members(vec![
            member("uint32_t constantID", "uint32_t", "constantID", None),
            member("size_t size", "size_t", "size", None),
        ]),
    }])];
    let c = Converter::new(r).unwrap();
    assert_eq!(
        c.generate_api_struct("VkSpecializationMapEntry").unwrap(),
        group("typedef struct VkSpecializationMapEntry {\n    uint32_t constantID;\n    size_t size;\n} VkSpecializationMapEntry;\u{0}pub struct SpecializationMapEntry {\n    constant_id: u32,\n    size: usize,\n}")
    );
}

fn const_alias(name: &str, alias: &str) -> EnumsChild {
    entry(name, EnumSpec::Alias { alias: s(alias), extends: None })
}

fn constants_converter() -> Converter {
    let consts = EnumGroup {
        name: Some(s("API Constants")),
        bitwidth: None,
        children: vec![
            entry("VK_MAX_NAME_SIZE", value("256")),
            const_alias("VK_MAX_NAME_SIZE_KHR", "VK_MAX_NAME_SIZE"),
            const_alias("VK_MAX_NAME_SIZE_EXT", "VK_MAX_NAME_SIZE_KHR"),
            entry("VK_REMAINING_MIP_LEVELS", value("(~0U)")),
            const_alias("VK_REMAINING_MIP_LEVELS_A", "VK_REMAINING_MIP_LEVELS"),
            const_alias("VK_REMAINING_MIP_LEVELS_B", "VK_REMAINING_MIP_LEVELS_A"),
            const_alias("VK_REMAINING_MIP_LEVELS_C", "VK_REMAINING_MIP_LEVELS_B"),
            const_alias("VK_LOOP_A", "VK_LOOP_B"),
            const_alias("VK_LOOP_B", "VK_LOOP_A"),
            const_alias("VK_DANGLING", "VK_NOWHERE_KHR"),
            const_alias("VK_DANGLING_TOO", "VK_DANGLING"),
        ],
    };
    Converter::new(vec![RegistryChild::Enums(consts)]).unwrap()
}

#[test]
fn constant_alias_of_an_alias() {
    let c = constants_converter();
    assert_eq!(
        c.generate_enum("VK_MAX_NAME_SIZE_EXT").unwrap(),
        group("#define VK_MAX_NAME_SIZE_EXT VK_MAX_NAME_SIZE_KHR\u{0}const MAX_NAME_SIZE_EXT: usize = vk::MAX_NAME_SIZE_KHR;")
    );
    assert_eq!(
        c.generate_enum("VK_REMAINING_MIP_LEVELS_C").unwrap(),
        group("#define VK_REMAINING_MIP_LEVELS_C VK_REMAINING_MIP_LEVELS_B\u{0}const REMAINING_MIP_LEVELS_C: u32 = vk::REMAINING_MIP_LEVELS_B;")
    );
}

#[test]
fn broken_constant_alias_chains_fail() {
    let c = constants_converter();
    match c.generate_enum("VK_LOOP_A") {
        Err(e) => {
            assert_eq!(e.kind, ErrorKind::CycleDetected);
            assert_eq!(e.symbol, "VK_LOOP_A");
        },
        Ok(_) => panic!("constant cycle rendered"),
    }
    match c.generate_enum("VK_DANGLING_TOO") {
        Err(e) => {
            assert_eq!(e.kind, ErrorKind::NotFound);
            assert_eq!(e.symbol, "VK_NOWHERE_KHR");
        },
        Ok(_) => panic!("dangling constant alias rendered"),
    }
}
