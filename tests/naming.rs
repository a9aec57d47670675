use vkdecl::membership::{add_item_parent, Membership};
use vkdecl::naming::{
    convert_c_enum_init_value_to_rust, convert_c_type_to_rust, try_variant_ident, variant_ident,
    variant_ident_from_parts,
};
use vkdecl::text::{chars_of, string_of};

#[test]
fn vendor_suffix_is_stripped() {
    assert_eq!(variant_ident("VkSampleCountFlagBitsEXT", "VK_SAMPLE_COUNT_1_BIT_EXT"), "TYPE_1");
}

#[test]
fn plain_variant_loses_group_prefix() {
    assert_eq!(variant_ident("VkImageLayout", "VK_IMAGE_LAYOUT_UNDEFINED"), "UNDEFINED");
    assert_eq!(
        variant_ident("VkImageLayout", "VK_IMAGE_LAYOUT_PRESENT_SRC_KHR"),
        "PRESENT_SRC_KHR"
    );
}

#[test]
fn lower_case_variant_is_upper_cased_first() {
    assert_eq!(variant_ident("VkImageLayout", "vk_image_layout_general"), "GENERAL");
}

#[test]
fn result_codes_fall_back_to_api_tag() {
    assert_eq!(variant_ident("VkResult", "VK_SUCCESS"), "SUCCESS");
    assert_eq!(
        variant_ident("VkResult", "VK_ERROR_OUT_OF_HOST_MEMORY"),
        "ERROR_OUT_OF_HOST_MEMORY"
    );
}

#[test]
fn versioned_group_gets_underscore_before_digits() {
    assert_eq!(
        variant_ident(
            "VkPipelineCreateFlagBits2KHR",
            "VK_PIPELINE_CREATE_2_DISABLE_OPTIMIZATION_BIT_KHR"
        ),
        "DISABLE_OPTIMIZATION"
    );
}

#[test]
fn bit_marker_is_removed() {
    assert_eq!(variant_ident("VkCullModeFlagBits", "VK_CULL_MODE_FRONT_BIT"), "FRONT");
    assert_eq!(
        variant_ident("VkCullModeFlagBits", "VK_CULL_MODE_FRONT_BIT_KHR"),
        "FRONT_KHR"
    );
}

#[test]
fn digit_leading_identifier_gets_prefix() {
    let r = variant_ident("VkSampleCountFlagBits", "VK_SAMPLE_COUNT_64_BIT");
    assert_eq!(r, "TYPE_64");
    assert!(!r.chars().next().unwrap().is_ascii_digit());
}

#[test]
fn normalisation_is_deterministic() {
    let a = variant_ident("VkFormatFeatureFlagBits", "VK_FORMAT_FEATURE_BLIT_SRC_BIT");
    let b = variant_ident("VkFormatFeatureFlagBits", "VK_FORMAT_FEATURE_BLIT_SRC_BIT");
    assert_eq!(a, b);
    assert_eq!(a, "BLIT_SRC");
}

#[test]
fn unconventional_variant_is_rejected() {
    assert_eq!(try_variant_ident("VkImageLayout", "VK_FORMAT_UNDEFINED"), None);
    assert_eq!(try_variant_ident("VkImageLayout", "VK_IMAGE_LAYOUTX"), None);
    assert_eq!(
        try_variant_ident("VkImageLayout", "VK_IMAGE_LAYOUT_GENERAL"),
        Some("GENERAL".to_string())
    );
}

#[test]
fn identifier_from_case_converted_parts() {
    assert_eq!(
        variant_ident_from_parts("VkFooEXT", "VK_FOO_EXT", "VK_FOO_BAR_EXT"),
        Some("BAR".to_string())
    );
    assert_eq!(
        variant_ident_from_parts("VkFoo2", "VK_FOO2", "VK_FOO_2_BAR_BIT"),
        Some("BAR".to_string())
    );
    assert_eq!(variant_ident_from_parts("VkFoo", "VK_FOO", "VK_FOOBAR"), None);
    assert_eq!(
        variant_ident_from_parts("VkFoo", "VK_FOO", "VK_FOO_3D"),
        Some("TYPE_3D".to_string())
    );
}

#[test]
fn type_names_translate() {
    assert_eq!(convert_c_type_to_rust("const void*"), "*const std::ffi::c_void");
    assert_eq!(convert_c_type_to_rust("void*"), "*mut std::ffi::c_void");
    assert_eq!(convert_c_type_to_rust("void"), "std::ffi::c_void");
    assert_eq!(convert_c_type_to_rust("uint64_t"), "u64");
    assert_eq!(convert_c_type_to_rust("uint32_t"), "u32");
    assert_eq!(convert_c_type_to_rust("uint16_t"), "u16");
    assert_eq!(convert_c_type_to_rust("uint8_t"), "u8");
    assert_eq!(convert_c_type_to_rust("int64_t"), "i64");
    assert_eq!(convert_c_type_to_rust("int32_t"), "i32");
    assert_eq!(convert_c_type_to_rust("int16_t"), "i16");
    assert_eq!(convert_c_type_to_rust("int8_t"), "i8");
    assert_eq!(convert_c_type_to_rust("int"), "i32");
    assert_eq!(convert_c_type_to_rust("float"), "f32");
    assert_eq!(convert_c_type_to_rust("size_t"), "usize");
    assert_eq!(convert_c_type_to_rust("char"), "std::ffi::c_char");
    assert_eq!(convert_c_type_to_rust("const char*"), "*const std::ffi::c_char");
    assert_eq!(convert_c_type_to_rust("char*"), "*mut std::ffi::c_char");
    assert_eq!(convert_c_type_to_rust("VkDevice"), "vk::Device");
    assert_eq!(convert_c_type_to_rust("double"), "double");
    assert_eq!(convert_c_type_to_rust(""), "");
}

#[test]
fn unsigned_all_ones_constant() {
    assert_eq!(
        convert_c_enum_init_value_to_rust("(~0U)"),
        ("u32", "!0u32".to_string())
    );
}

#[test]
fn literal_suffixes_infer_types() {
    assert_eq!(
        convert_c_enum_init_value_to_rust("(~0ULL)"),
        ("u64", "!0u64".to_string())
    );
    assert_eq!(
        convert_c_enum_init_value_to_rust("1000.0F"),
        ("f32", "1000.0f32".to_string())
    );
    assert_eq!(convert_c_enum_init_value_to_rust("256"), ("usize", "256".to_string()));
    assert_eq!(
        convert_c_enum_init_value_to_rust("(~2U)"),
        ("u32", "!2u32".to_string())
    );
}

#[test]
fn owners_accumulate_in_order() {
    let mut m = Membership::new();
    add_item_parent(&mut m, "vkFoo", "Core_1_0");
    add_item_parent(&mut m, "vkFoo", "EXT_foo");
    assert_eq!(m.get("vkFoo").map(|s| s.as_str()), Some("Core_1_0, EXT_foo"));
}

#[test]
fn repeated_owner_is_kept_twice() {
    let mut m = Membership::new();
    add_item_parent(&mut m, "VkBar", "A");
    add_item_parent(&mut m, "VkOther", "B");
    add_item_parent(&mut m, "VkBar", "A");
    assert_eq!(m.get("VkBar").map(|s| s.as_str()), Some("A, A"));
    assert_eq!(m.get("VkOther").map(|s| s.as_str()), Some("B"));
    assert_eq!(m.get("VkNone"), None);
}

#[test]
fn characters_round_trip() {
    let c = chars_of("héllo");
    assert_eq!(c, vec!['h', 'é', 'l', 'l', 'o']);
    assert_eq!(string_of(&c), "héllo");
}
