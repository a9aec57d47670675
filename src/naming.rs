//! Target-syntax names: the translation of source type spellings and
//! literal values, and the identifier that an enumeration variant gets.
use vstd::prelude::*;
use crate::text::{
    chars_of, contains, contains_chars, ends_with, is_ascii_digit, is_prefix, is_suffix,
    replace_all, replace_chars, same_as, slice_chars, starts_with, string_of,
};

verus! {

/// What `str::to_uppercase` returns for `s`.
pub uninterp spec fn upper_of(s: Seq<char>) -> Seq<char>;

/// What heck's `to_shouty_snake_case` returns for `s`.
pub uninterp spec fn shouty_snake_of(s: Seq<char>) -> Seq<char>;

/// What heck's `to_snake_case` returns for `s`.
pub uninterp spec fn snake_of(s: Seq<char>) -> Seq<char>;

/// Relies on `str::to_uppercase`: the result depends on the characters alone.
#[verifier::external_body]
fn uppercase(s: &str) -> (r: String)
    ensures
        r@ == upper_of(s@),
{
    s.to_uppercase()
}

/// Relies on heck's `ToShoutySnakeCase::to_shouty_snake_case`: the result
/// depends on the characters alone.
#[verifier::external_body]
fn shouty_snake(s: &str) -> (r: String)
    ensures
        r@ == shouty_snake_of(s@),
{
    heck::ToShoutySnakeCase::to_shouty_snake_case(s)
}

/// Relies on heck's `ToSnakeCase::to_snake_case`: the result depends on the
/// characters alone.
#[verifier::external_body]
fn snake(s: &str) -> (r: String)
    ensures
        r@ == snake_of(s@),
{
    heck::ToSnakeCase::to_snake_case(s)
}

/// `s` in the target naming convention for fields, parameters and functions.
pub fn snake_case(s: &[char]) -> (r: Vec<char>)
    ensures
        r@ == snake_of(s@),
{
    let t = string_of(s);
    let r = snake(t.as_str());
    chars_of(r.as_str())
}

// ---------------------------------------------------------------------------
// Type names

/// The target-syntax spelling of a source type spelling.
pub open spec fn rust_type_of(c: Seq<char>) -> Seq<char> {
    if is_prefix("Vk"@, c) {
        "vk::"@ + c.skip(2)
    } else if c == "void"@ {
        "std::ffi::c_void"@
    } else if c == "void*"@ {
        "*mut std::ffi::c_void"@
    } else if c == "const void*"@ {
        "*const std::ffi::c_void"@
    } else if c == "uint64_t"@ {
        "u64"@
    } else if c == "uint32_t"@ {
        "u32"@
    } else if c == "uint16_t"@ {
        "u16"@
    } else if c == "uint8_t"@ {
        "u8"@
    } else if c == "int64_t"@ {
        "i64"@
    } else if c == "int32_t"@ {
        "i32"@
    } else if c == "int16_t"@ {
        "i16"@
    } else if c == "int8_t"@ {
        "i8"@
    } else if c == "int"@ {
        "i32"@
    } else if c == "float"@ {
        "f32"@
    } else if c == "size_t"@ {
        "usize"@
    } else if c == "char"@ {
        "std::ffi::c_char"@
    } else if c == "const char*"@ {
        "*const std::ffi::c_char"@
    } else if c == "char*"@ {
        "*mut std::ffi::c_char"@
    } else {
        c
    }
}

/// Translates a source type spelling, held as characters.
pub fn rust_type_chars(c: &[char]) -> (r: Vec<char>)
    ensures
        r@ == rust_type_of(c@),
{
    let vk = chars_of("Vk");
    proof {
        reveal_strlit("Vk");
    }
    if starts_with(c, vk.as_slice()) {
        let mut r = chars_of("vk::");
        let rest = slice_chars(c, 2, c.len());
        assert(rest@ =~= c@.skip(2));
        crate::text::extend_chars(&mut r, rest.as_slice());
        return r;
    }
    if same_as(c, "void") {
        chars_of("std::ffi::c_void")
    } else if same_as(c, "void*") {
        chars_of("*mut std::ffi::c_void")
    } else if same_as(c, "const void*") {
        chars_of("*const std::ffi::c_void")
    } else if same_as(c, "uint64_t") {
        chars_of("u64")
    } else if same_as(c, "uint32_t") {
        chars_of("u32")
    } else if same_as(c, "uint16_t") {
        chars_of("u16")
    } else if same_as(c, "uint8_t") {
        chars_of("u8")
    } else if same_as(c, "int64_t") {
        chars_of("i64")
    } else if same_as(c, "int32_t") {
        chars_of("i32")
    } else if same_as(c, "int16_t") {
        chars_of("i16")
    } else if same_as(c, "int8_t") {
        chars_of("i8")
    } else if same_as(c, "int") {
        chars_of("i32")
    } else if same_as(c, "float") {
        chars_of("f32")
    } else if same_as(c, "size_t") {
        chars_of("usize")
    } else if same_as(c, "char") {
        chars_of("std::ffi::c_char")
    } else if same_as(c, "const char*") {
        chars_of("*const std::ffi::c_char")
    } else if same_as(c, "char*") {
        chars_of("*mut std::ffi::c_char")
    } else {
        slice_chars(c, 0, c.len())
    }
}

/// Translates a source type spelling to its target-syntax spelling: API
/// types become references into the `vk` namespace, the primitive types of
/// the table become their target names, anything else passes through.
pub fn convert_c_type_to_rust(c_type: &str) -> (r: String)
    ensures
        r@ == rust_type_of(c_type@),
{
    let c = chars_of(c_type);
    let r = rust_type_chars(c.as_slice());
    string_of(r.as_slice())
}

// ---------------------------------------------------------------------------
// Literal values

/// The numeric type inferred from the suffix markers of a source literal.
pub open spec fn literal_type_of(v: Seq<char>) -> Seq<char> {
    if contains(v, "ULL"@) {
        "u64"@
    } else if contains(v, "U"@) {
        "u32"@
    } else if contains(v, "F"@) {
        "f32"@
    } else {
        "usize"@
    }
}

/// The target-syntax spelling of a source literal.
pub open spec fn literal_value_of(v: Seq<char>) -> Seq<char> {
    let a = replace_all(v, "~"@, "!"@);
    let b = replace_all(a, "("@, Seq::empty());
    let c = replace_all(b, ")"@, Seq::empty());
    let d = replace_all(c, "ULL"@, "u64"@);
    let e = replace_all(d, "U"@, "u32"@);
    replace_all(e, "F"@, "f32"@)
}

fn replace_lit(s: &[char], p: &str, r: &str) -> (out: Vec<char>)
    ensures
        out@ == replace_all(s@, p@, r@),
{
    let pc = chars_of(p);
    let rc = chars_of(r);
    replace_chars(s, pc.as_slice(), rc.as_slice())
}

/// Translates the value of a manifest constant: returns the inferred target
/// type and the literal rewritten in target syntax.
pub fn convert_c_enum_init_value_to_rust(c_value: &str) -> (r: (&'static str, String))
    ensures
        r.0@ == literal_type_of(c_value@),
        r.1@ == literal_value_of(c_value@),
{
    let v = chars_of(c_value);
    let ull = chars_of("ULL");
    let u = chars_of("U");
    let f = chars_of("F");
    let ty: &'static str = if contains_chars(v.as_slice(), ull.as_slice()) {
        "u64"
    } else if contains_chars(v.as_slice(), u.as_slice()) {
        "u32"
    } else if contains_chars(v.as_slice(), f.as_slice()) {
        "f32"
    } else {
        "usize"
    };
    let a = replace_lit(v.as_slice(), "~", "!");
    let b = replace_lit(a.as_slice(), "(", "");
    let c = replace_lit(b.as_slice(), ")", "");
    let d = replace_lit(c.as_slice(), "ULL", "u64");
    let e = replace_lit(d.as_slice(), "U", "u32");
    let g = replace_lit(e.as_slice(), "F", "f32");
    proof {
        reveal_strlit("");
        assert(""@ =~= Seq::<char>::empty());
    }
    (ty, string_of(g.as_slice()))
}

// ---------------------------------------------------------------------------
// Variant identifiers

/// The number of recognised vendor tags.
pub const VENDOR_TAG_COUNT: usize = 38;

/// The recognised vendor tags, in the order in which they are tried.
pub open spec fn vendor_tag(i: int) -> Seq<char> {
    if i == 0 {
        "_AMD"@
    } else if i == 1 {
        "_AMDX"@
    } else if i == 2 {
        "_ANDROID"@
    } else if i == 3 {
        "_ARM"@
    } else if i == 4 {
        "_BRCM"@
    } else if i == 5 {
        "_CHROMIUM"@
    } else if i == 6 {
        "_EXT"@
    } else if i == 7 {
        "_FB"@
    } else if i == 8 {
        "_FSL"@
    } else if i == 9 {
        "_FUCHSIA"@
    } else if i == 10 {
        "_GGP"@
    } else if i == 11 {
        "_GOOGLE"@
    } else if i == 12 {
        "_HUAWEI"@
    } else if i == 13 {
        "_IMG"@
    } else if i == 14 {
        "_INTEL"@
    } else if i == 15 {
        "_JUICE"@
    } else if i == 16 {
        "_KDAB"@
    } else if i == 17 {
        "_KHR"@
    } else if i == 18 {
        "_KHX"@
    } else if i == 19 {
        "_LUNARG"@
    } else if i == 20 {
        "_MESA"@
    } else if i == 21 {
        "_MSFT"@
    } else if i == 22 {
        "_MVK"@
    } else if i == 23 {
        "_NN"@
    } else if i == 24 {
        "_NV"@
    } else if i == 25 {
        "_NVX"@
    } else if i == 26 {
        "_NXP"@
    } else if i == 27 {
        "_NZXT"@
    } else if i == 28 {
        "_QCOM"@
    } else if i == 29 {
        "_QNX"@
    } else if i == 30 {
        "_RASTERGRID"@
    } else if i == 31 {
        "_RENDERDOC"@
    } else if i == 32 {
        "_SAMSUNG"@
    } else if i == 33 {
        "_SEC"@
    } else if i == 34 {
        "_TIZEN"@
    } else if i == 35 {
        "_VALVE"@
    } else if i == 36 {
        "_VIV"@
    } else if i == 37 {
        "_VSI"@
    } else {
        Seq::empty()
    }
}

fn vendor_tag_at(i: usize) -> (r: &'static str)
    requires
        i < VENDOR_TAG_COUNT,
    ensures
        r@ == vendor_tag(i as int),
{
    match i {
        0 => "_AMD",
        1 => "_AMDX",
        2 => "_ANDROID",
        3 => "_ARM",
        4 => "_BRCM",
        5 => "_CHROMIUM",
        6 => "_EXT",
        7 => "_FB",
        8 => "_FSL",
        9 => "_FUCHSIA",
        10 => "_GGP",
        11 => "_GOOGLE",
        12 => "_HUAWEI",
        13 => "_IMG",
        14 => "_INTEL",
        15 => "_JUICE",
        16 => "_KDAB",
        17 => "_KHR",
        18 => "_KHX",
        19 => "_LUNARG",
        20 => "_MESA",
        21 => "_MSFT",
        22 => "_MVK",
        23 => "_NN",
        24 => "_NV",
        25 => "_NVX",
        26 => "_NXP",
        27 => "_NZXT",
        28 => "_QCOM",
        29 => "_QNX",
        30 => "_RASTERGRID",
        31 => "_RENDERDOC",
        32 => "_SAMSUNG",
        33 => "_SEC",
        34 => "_TIZEN",
        35 => "_VALVE",
        36 => "_VIV",
        _ => "_VSI",
    }
}

/// The first vendor tag, from entry `i` of the table on, that ends `stem`;
/// empty where none does.
pub open spec fn vendor_tag_from(stem: Seq<char>, i: int) -> Seq<char>
    decreases VENDOR_TAG_COUNT - i,
{
    if i < 0 || i >= VENDOR_TAG_COUNT {
        Seq::empty()
    } else if is_suffix(vendor_tag(i), stem) {
        vendor_tag(i)
    } else {
        vendor_tag_from(stem, i + 1)
    }
}

/// The vendor tag of a group stem: the first table entry that ends it.
pub open spec fn vendor_of(stem: Seq<char>) -> Seq<char> {
    vendor_tag_from(stem, 0)
}

/// Where the run of ASCII digits that ends `s` starts (`s.len()` if `s`
/// does not end in a digit).
pub open spec fn digit_run_start(s: Seq<char>) -> int
    decreases s.len(),
{
    if s.len() > 0 && is_ascii_digit(s.last()) {
        digit_run_start(s.drop_last())
    } else {
        s.len() as int
    }
}

/// `s` with an underscore put before the run of digits that ends it.
pub open spec fn underscore_before_digits(s: Seq<char>) -> Seq<char> {
    let k = digit_run_start(s);
    if k < s.len() {
        s.take(k) + seq!['_'] + s.skip(k)
    } else {
        s
    }
}

/// The last steps of the normalisation: every `_BIT` removed, and a digit
/// at the front guarded by the `TYPE_` prefix.
pub open spec fn finish_ident(x: Seq<char>) -> Seq<char> {
    let y = replace_all(x, "_BIT"@, Seq::empty());
    if y.len() > 0 && is_ascii_digit(y[0]) {
        "TYPE_"@ + y
    } else {
        y
    }
}

/// The identifier of a variant from the group stem with its vendor tag
/// already stripped (`stem`) and the upper-cased variant name with that tag
/// stripped (`upper`); `None` where the variant does not start with the
/// group's prefix and a separator.
pub open spec fn ident_core(enum_name: Seq<char>, stem: Seq<char>, upper: Seq<char>) -> Option<
    Seq<char>,
> {
    let prefix = underscore_before_digits(stem);
    let rest = if is_prefix(prefix, upper) {
        Some(upper.skip(prefix.len() as int))
    } else if enum_name == "VkResult"@ && is_prefix("VK"@, upper) {
        Some(upper.skip(2))
    } else {
        None
    };
    match rest {
        Some(rest) => if rest.len() > 0 && rest[0] == '_' {
            Some(finish_ident(rest.skip(1)))
        } else {
            None
        },
        None => None,
    }
}

/// The identifier of a variant, from the upper-snake group stem `shouty`
/// and the upper-cased variant name `upper`.
pub open spec fn ident_from_parts(enum_name: Seq<char>, shouty: Seq<char>, upper: Seq<char>) -> Option<
    Seq<char>,
> {
    let tag = vendor_of(shouty);
    let stem = shouty.take(shouty.len() - tag.len());
    let v = if is_suffix(tag, upper) {
        upper.take(upper.len() - tag.len())
    } else {
        upper
    };
    ident_core(enum_name, stem, v)
}

/// The group name with the group-of-bits marker removed.
pub open spec fn group_stem(enum_name: Seq<char>) -> Seq<char> {
    replace_all(enum_name, "FlagBits"@, Seq::empty())
}

/// The identifier that variant `variant_name` of group `enum_name` gets.
pub open spec fn variant_ident_of(enum_name: Seq<char>, variant_name: Seq<char>) -> Option<
    Seq<char>,
> {
    ident_from_parts(enum_name, shouty_snake_of(group_stem(enum_name)), upper_of(variant_name))
}

fn vendor_of_exec(stem: &[char]) -> (r: Vec<char>)
    ensures
        r@ == vendor_of(stem@),
{
    let mut i: usize = 0;
    while i < VENDOR_TAG_COUNT
        invariant
            i <= VENDOR_TAG_COUNT,
            vendor_tag_from(stem@, 0) == vendor_tag_from(stem@, i as int),
        decreases VENDOR_TAG_COUNT - i,
    {
        let t = chars_of(vendor_tag_at(i));
        if ends_with(stem, t.as_slice()) {
            return t;
        }
        i += 1;
    }
    Vec::new()
}

fn underscore_before_digits_exec(s: &[char]) -> (r: Vec<char>)
    ensures
        r@ == underscore_before_digits(s@),
{
    let mut k: usize = s.len();
    assert(s@.take(k as int) =~= s@);
    while k > 0 && '0' <= s[k - 1] && s[k - 1] <= '9'
        invariant
            k <= s@.len(),
            digit_run_start(s@) == digit_run_start(s@.take(k as int)),
        decreases k,
    {
        assert(s@.take(k as int).drop_last() =~= s@.take(k - 1));
        k -= 1;
    }
    if k < s.len() {
        let mut r = slice_chars(s, 0, k);
        r.push('_');
        let tail = slice_chars(s, k, s.len());
        crate::text::extend_chars(&mut r, tail.as_slice());
        assert(tail@ =~= s@.skip(k as int));
        r
    } else {
        slice_chars(s, 0, s.len())
    }
}

fn finish_ident_exec(x: &[char]) -> (r: Vec<char>)
    ensures
        r@ == finish_ident(x@),
{
    let y = replace_lit(x, "_BIT", "");
    proof {
        reveal_strlit("");
        assert(""@ =~= Seq::<char>::empty());
    }
    if y.len() > 0 && '0' <= y[0] && y[0] <= '9' {
        let mut r = chars_of("TYPE_");
        crate::text::extend_chars(&mut r, y.as_slice());
        r
    } else {
        y
    }
}

fn ident_core_exec(enum_name: &[char], stem: &[char], upper: &[char]) -> (r: Option<Vec<char>>)
    ensures
        r matches Some(v) ==> ident_core(enum_name@, stem@, upper@) == Some(v@),
        r is None ==> ident_core(enum_name@, stem@, upper@) is None,
{
    let prefix = underscore_before_digits_exec(stem);
    let vk = chars_of("VK");
    proof {
        reveal_strlit("VK");
    }
    let rest = if starts_with(upper, prefix.as_slice()) {
        slice_chars(upper, prefix.len(), upper.len())
    } else if same_as(enum_name, "VkResult") && starts_with(upper, vk.as_slice()) {
        slice_chars(upper, 2, upper.len())
    } else {
        return None;
    };
    assert(rest@ =~= upper@.skip(prefix@.len() as int) || rest@ =~= upper@.skip(2));
    if rest.len() > 0 && rest[0] == '_' {
        let tail = slice_chars(rest.as_slice(), 1, rest.len());
        assert(tail@ =~= rest@.skip(1));
        Some(finish_ident_exec(tail.as_slice()))
    } else {
        None
    }
}

fn ident_from_parts_exec(enum_name: &[char], shouty: &[char], upper: &[char]) -> (r: Option<
    Vec<char>,
>)
    ensures
        r matches Some(v) ==> ident_from_parts(enum_name@, shouty@, upper@) == Some(v@),
        r is None ==> ident_from_parts(enum_name@, shouty@, upper@) is None,
{
    let tag = vendor_of_exec(shouty);
    proof {
        lemma_vendor_tag_is_suffix(shouty@, 0);
    }
    let stem = slice_chars(shouty, 0, shouty.len() - tag.len());
    let v = if ends_with(upper, tag.as_slice()) {
        slice_chars(upper, 0, upper.len() - tag.len())
    } else {
        slice_chars(upper, 0, upper.len())
    };
    assert(stem@ =~= shouty@.take(shouty@.len() - tag@.len()));
    assert(upper@.subrange(0, upper@.len() as int) =~= upper@);
    ident_core_exec(enum_name, stem.as_slice(), v.as_slice())
}

/// The vendor tag found for a stem is empty or ends the stem.
pub proof fn lemma_vendor_tag_is_suffix(stem: Seq<char>, i: int)
    ensures
        vendor_tag_from(stem, i).len() == 0 || is_suffix(vendor_tag_from(stem, i), stem),
    decreases VENDOR_TAG_COUNT - i,
{
    if 0 <= i < VENDOR_TAG_COUNT && !is_suffix(vendor_tag(i), stem) {
        lemma_vendor_tag_is_suffix(stem, i + 1);
    }
}

/// Computes a variant's identifier from the results of the two case
/// conversions: `shouty_stem` is the upper-snake group stem and
/// `upper_variant` the upper-cased variant name. `None` where the variant
/// does not carry the group's prefix.
pub fn variant_ident_from_parts(enum_name: &str, shouty_stem: &str, upper_variant: &str) -> (r:
    Option<String>)
    ensures
        r matches Some(s) ==> ident_from_parts(enum_name@, shouty_stem@, upper_variant@) == Some(s@),
        r is None ==> ident_from_parts(enum_name@, shouty_stem@, upper_variant@) is None,
{
    let e = chars_of(enum_name);
    let s = chars_of(shouty_stem);
    let u = chars_of(upper_variant);
    match ident_from_parts_exec(e.as_slice(), s.as_slice(), u.as_slice()) {
        Some(v) => Some(string_of(v.as_slice())),
        None => None,
    }
}

fn variant_ident_chars(enum_name: &str, variant_name: &str) -> (r: Option<Vec<char>>)
    ensures
        r matches Some(v) ==> variant_ident_of(enum_name@, variant_name@) == Some(v@),
        r is None ==> variant_ident_of(enum_name@, variant_name@) is None,
{
    let e = chars_of(enum_name);
    let fb = chars_of("FlagBits");
    let empty: Vec<char> = Vec::new();
    let stem = replace_chars(e.as_slice(), fb.as_slice(), empty.as_slice());
    assert(empty@ =~= Seq::<char>::empty());
    let stem_s = string_of(stem.as_slice());
    let shouty = shouty_snake(stem_s.as_str());
    let upper = uppercase(variant_name);
    let s = chars_of(shouty.as_str());
    let u = chars_of(upper.as_str());
    ident_from_parts_exec(e.as_slice(), s.as_slice(), u.as_slice())
}

/// The identifier of variant `variant_name` of enumeration group
/// `enum_name`, or `None` where the variant name does not follow the
/// naming convention of its group.
///
/// The result is `variant_ident_of` of the two names: a function of them
/// alone, the same on every call.
pub fn try_variant_ident(enum_name: &str, variant_name: &str) -> (r: Option<String>)
    ensures
        r matches Some(s) ==> variant_ident_of(enum_name@, variant_name@) == Some(s@),
        r is None ==> variant_ident_of(enum_name@, variant_name@) is None,
{
    match variant_ident_chars(enum_name, variant_name) {
        Some(_) => Some(variant_ident(enum_name, variant_name)),
        None => None,
    }
}

/// The identifier of variant `variant_name` of enumeration group
/// `enum_name` in the target syntax.
pub fn variant_ident(enum_name: &str, variant_name: &str) -> (r: String)
    requires
        variant_ident_of(enum_name@, variant_name@) is Some,
    ensures
        variant_ident_of(enum_name@, variant_name@) == Some(r@),
        !(r@.len() > 0 && is_ascii_digit(r@[0])),
{
    match variant_ident_chars(enum_name, variant_name) {
        Some(v) => {
            proof {
                lemma_ident_not_digit_leading(enum_name@, variant_name@);
            }
            string_of(v.as_slice())
        },
        None => {
            proof {
                assert(false);
            }
            String::new()
        },
    }
}

/// A finished identifier never starts with a digit.
pub proof fn lemma_finish_not_digit_leading(x: Seq<char>)
    ensures
        !(finish_ident(x).len() > 0 && is_ascii_digit(finish_ident(x)[0])),
{
    reveal_strlit("TYPE_");
}

/// No identifier that the normaliser produces starts with a digit.
pub proof fn lemma_ident_not_digit_leading(enum_name: Seq<char>, variant_name: Seq<char>)
    requires
        variant_ident_of(enum_name, variant_name) is Some,
    ensures
        !(variant_ident_of(enum_name, variant_name)->0.len() > 0 && is_ascii_digit(
            variant_ident_of(enum_name, variant_name)->0[0],
        )),
{
    let shouty = shouty_snake_of(group_stem(enum_name));
    let upper = upper_of(variant_name);
    let tag = vendor_of(shouty);
    let stem = shouty.take(shouty.len() - tag.len());
    let v = if is_suffix(tag, upper) {
        upper.take(upper.len() - tag.len())
    } else {
        upper
    };
    let prefix = underscore_before_digits(stem);
    if is_prefix(prefix, v) {
        lemma_finish_not_digit_leading(v.skip(prefix.len() as int).skip(1));
    } else {
        lemma_finish_not_digit_leading(v.skip(2).skip(1));
    }
}

/// The normaliser is a function of its two names: equal names give equal
/// identifiers.
pub proof fn lemma_variant_ident_deterministic(
    e1: Seq<char>,
    v1: Seq<char>,
    e2: Seq<char>,
    v2: Seq<char>,
)
    requires
        e1 == e2,
        v1 == v2,
    ensures
        variant_ident_of(e1, v1) == variant_ident_of(e2, v2),
{
}

/// A vendor tag that ends both the group stem and the variant name plays no
/// part in the identifier: the result is that of the untagged names.
pub proof fn lemma_vendor_tag_stripped(
    enum_name: Seq<char>,
    stem: Seq<char>,
    upper: Seq<char>,
    tag: Seq<char>,
)
    requires
        tag == vendor_of(stem + tag),
    ensures
        ident_from_parts(enum_name, stem + tag, upper + tag) == ident_core(enum_name, stem, upper),
{
    let s = stem + tag;
    let u = upper + tag;
    assert(s.take(s.len() - tag.len()) =~= stem);
    assert(u.skip(u.len() - tag.len()) =~= tag);
    assert(u.take(u.len() - tag.len()) =~= upper);
}

/// `c` does not occur in `s`.
pub open spec fn lacks(s: Seq<char>, c: char) -> bool {
    forall|i: int| 0 <= i < s.len() ==> s[i] != c
}

/// Replacing every occurrence of `c` by a text without `c` leaves no `c`.
pub proof fn lemma_replace_removes(s: Seq<char>, c: char, r: Seq<char>)
    requires
        lacks(r, c),
    ensures
        lacks(replace_all(s, seq![c], r), c),
    decreases s.len(),
{
    let p = seq![c];
    if s.len() < 1 {
    } else if s.take(1) == p {
        lemma_replace_removes(s.skip(1), c, r);
        let t = replace_all(s.skip(1), p, r);
        assert forall|i: int| 0 <= i < (r + t).len() implies (r + t)[i] != c by {
            if i >= r.len() {
                assert((r + t)[i] == t[i - r.len()]);
            }
        }
    } else {
        lemma_replace_removes(s.skip(1), c, r);
        let t = replace_all(s.skip(1), p, r);
        assert(s[0] != c) by {
            assert(s.take(1)[0] == s[0]);
            if s[0] == c {
                assert(s.take(1) =~= p);
            }
        }
        assert forall|i: int| 0 <= i < (seq![s[0]] + t).len() implies (seq![s[0]] + t)[i] != c by {
            if i >= 1 {
                assert((seq![s[0]] + t)[i] == t[i - 1]);
            }
        }
    }
}

/// Replacing by a text without `c` brings in no `c`.
pub proof fn lemma_replace_keeps_out(s: Seq<char>, p: Seq<char>, r: Seq<char>, c: char)
    requires
        lacks(s, c),
        lacks(r, c),
    ensures
        lacks(replace_all(s, p, r), c),
    decreases s.len(),
{
    if p.len() == 0 || s.len() < p.len() {
    } else if s.take(p.len() as int) == p {
        lemma_replace_keeps_out(s.skip(p.len() as int), p, r, c);
        let t = replace_all(s.skip(p.len() as int), p, r);
        assert forall|i: int| 0 <= i < (r + t).len() implies (r + t)[i] != c by {
            if i >= r.len() {
                assert((r + t)[i] == t[i - r.len()]);
            }
        }
    } else {
        lemma_replace_keeps_out(s.skip(1), p, r, c);
        let t = replace_all(s.skip(1), p, r);
        assert forall|i: int| 0 <= i < (seq![s[0]] + t).len() implies (seq![s[0]] + t)[i] != c by {
            if i >= 1 {
                assert((seq![s[0]] + t)[i] == t[i - 1]);
            }
        }
    }
}

/// A translated literal keeps no parenthesis, no `~`, and no `U` or `F`
/// suffix marker: each is dropped or rewritten.
pub proof fn lemma_literal_markers_rewritten(v: Seq<char>)
    ensures
        lacks(literal_value_of(v), '('),
        lacks(literal_value_of(v), ')'),
        lacks(literal_value_of(v), '~'),
        lacks(literal_value_of(v), 'U'),
        lacks(literal_value_of(v), 'F'),
{
    reveal_strlit("~");
    reveal_strlit("!");
    reveal_strlit("(");
    reveal_strlit(")");
    reveal_strlit("ULL");
    reveal_strlit("u64");
    reveal_strlit("U");
    reveal_strlit("u32");
    reveal_strlit("F");
    reveal_strlit("f32");
    let e: Seq<char> = Seq::empty();
    assert("~"@ =~= seq!['~']);
    assert("("@ =~= seq!['(']);
    assert(")"@ =~= seq![')']);
    assert("U"@ =~= seq!['U']);
    assert("F"@ =~= seq!['F']);
    let a = replace_all(v, "~"@, "!"@);
    let b = replace_all(a, "("@, e);
    let c = replace_all(b, ")"@, e);
    let d = replace_all(c, "ULL"@, "u64"@);
    let f = replace_all(d, "U"@, "u32"@);
    let g = replace_all(f, "F"@, "f32"@);
    lemma_replace_removes(v, '~', "!"@);
    lemma_replace_removes(a, '(', e);
    lemma_replace_keeps_out(a, "("@, e, '~');
    lemma_replace_removes(b, ')', e);
    lemma_replace_keeps_out(b, ")"@, e, '~');
    lemma_replace_keeps_out(b, ")"@, e, '(');
    lemma_replace_keeps_out(c, "ULL"@, "u64"@, '~');
    lemma_replace_keeps_out(c, "ULL"@, "u64"@, '(');
    lemma_replace_keeps_out(c, "ULL"@, "u64"@, ')');
    lemma_replace_removes(d, 'U', "u32"@);
    lemma_replace_keeps_out(d, "U"@, "u32"@, '~');
    lemma_replace_keeps_out(d, "U"@, "u32"@, '(');
    lemma_replace_keeps_out(d, "U"@, "u32"@, ')');
    lemma_replace_removes(f, 'F', "f32"@);
    lemma_replace_keeps_out(f, "F"@, "f32"@, '~');
    lemma_replace_keeps_out(f, "F"@, "f32"@, '(');
    lemma_replace_keeps_out(f, "F"@, "f32"@, ')');
    lemma_replace_keeps_out(f, "F"@, "f32"@, 'U');
    assert(literal_value_of(v) == g);
}

} // verus!
