//! Adapter and renderer identities recorded in efficiency artifacts, and the
//! compositor's construction errors.

use vstd::prelude::*;

use crate::text_util::string_from_str;

verus! {

/// Stable, dependency-free identity of the GPU adapter the compositor runs on.
#[derive(Clone, Debug, PartialEq, Eq)]
pub struct CompositorAdapterInfo {
    /// Adapter name (for example, `llvmpipe`).
    pub name: String,
    /// Backend name (for example, `Vulkan`).
    pub backend: String,
    /// Device type name (for example, `Cpu`).
    pub device_type: String,
    /// Driver name.
    pub driver: String,
    /// Driver version/details.
    pub driver_info: String,
    /// PCI vendor identifier.
    pub vendor: u32,
    /// PCI device identifier.
    pub device: u32,
}

/// The renderer identity recorded in change-efficiency artifacts.
#[derive(Clone, Debug, PartialEq, Eq)]
pub struct EfficiencyRendererIdentity {
    pub backend: String,
    pub adapter: String,
    pub software: bool,
}

/// Unicode `White_Space` characters (what `char::is_whitespace` recognizes).
pub open spec fn is_unicode_whitespace(c: char) -> bool {
    let v = c as u32;
    ||| 0x09 <= v <= 0x0D
    ||| v == 0x20
    ||| v == 0x85
    ||| v == 0xA0
    ||| v == 0x1680
    ||| 0x2000 <= v <= 0x200A
    ||| v == 0x2028
    ||| v == 0x2029
    ||| v == 0x202F
    ||| v == 0x205F
    ||| v == 0x3000
}

/// The ASCII whitespace characters: TAB, LF, VT, FF, CR and SPACE.
pub open spec fn is_ascii_layout_char(c: char) -> bool {
    c == '\t' || c == '\n' || c == '\u{0B}' || c == '\u{0C}' || c == '\r' || c == ' '
}

/// Among ASCII characters, exactly TAB, LF, VT, FF, CR and SPACE are
/// whitespace; NEL, NO-BREAK SPACE and the Unicode spaces, line and
/// paragraph separators beyond ASCII are whitespace too.
pub proof fn law_whitespace_characters(c: char)
    ensures
        (c as u32) < 0x80 ==> (is_unicode_whitespace(c) <==> is_ascii_layout_char(c)),
        is_unicode_whitespace('\u{85}'),
        is_unicode_whitespace('\u{A0}'),
        is_unicode_whitespace('\u{1680}'),
        is_unicode_whitespace('\u{2028}'),
        is_unicode_whitespace('\u{2029}'),
        is_unicode_whitespace('\u{202F}'),
        is_unicode_whitespace('\u{205F}'),
        is_unicode_whitespace('\u{3000}'),
        '\u{2000}' <= c <= '\u{200A}' ==> is_unicode_whitespace(c),
        !is_unicode_whitespace('\u{200B}'),
        !is_unicode_whitespace('\u{FEFF}'),
{
}

/// True when `c` is a Unicode `White_Space` character.
pub fn is_whitespace_char(c: char) -> (r: bool)
    ensures
        r == is_unicode_whitespace(c),
{
    let v = c as u32;
    (0x09 <= v && v <= 0x0D) || v == 0x20 || v == 0x85 || v == 0xA0 || v == 0x1680 || (0x2000
        <= v && v <= 0x200A) || v == 0x2028 || v == 0x2029 || v == 0x202F || v == 0x205F || v
        == 0x3000
}

/// True when every character of `s` is whitespace (so trimming it leaves
/// nothing).
pub open spec fn is_blank(s: Seq<char>) -> bool {
    forall|i: int| 0 <= i < s.len() ==> is_unicode_whitespace(#[trigger] s[i])
}

/// True when `s` is empty after trimming whitespace from both ends.
pub fn trims_to_empty(s: &str) -> (r: bool)
    ensures
        r == is_blank(s@),
{
    let n = s.unicode_len();
    let mut i: usize = 0;
    while i < n
        invariant
            n == s@.len(),
            0 <= i <= n,
            forall|j: int| 0 <= j < i ==> is_unicode_whitespace(#[trigger] s@[j]),
        decreases n - i,
    {
        if !is_whitespace_char(s.get_char(i)) {
            return false;
        }
        i = i + 1;
    }
    true
}

/// `value`, or `fallback` when `value` is blank.
pub open spec fn nonempty_identity_spec(value: Seq<char>, fallback: Seq<char>) -> Seq<char> {
    if is_blank(value) {
        fallback
    } else {
        value
    }
}

/// The identity string `value`, or `fallback` when `value` is empty or only
/// whitespace.
pub fn nonempty_identity(value: &str, fallback: &str) -> (r: String)
    ensures
        r@ == nonempty_identity_spec(value@, fallback@),
{
    if trims_to_empty(value) {
        string_from_str(fallback)
    } else {
        string_from_str(value)
    }
}

/// ASCII lower-casing of one character (other characters unchanged).
pub open spec fn ascii_lower(c: char) -> char {
    if 'A' <= c && c <= 'Z' {
        ((c as u32) + 32) as char
    } else {
        c
    }
}

/// ASCII case-insensitive equality of two character sequences.
pub open spec fn eq_ignore_ascii_case_spec(a: Seq<char>, b: Seq<char>) -> bool {
    a.len() == b.len() && forall|i: int| 0 <= i < a.len() ==> ascii_lower(#[trigger] a[i])
        == ascii_lower(b[i])
}

fn to_ascii_lower(c: char) -> (r: char)
    ensures
        r == ascii_lower(c),
{
    if 'A' <= c && c <= 'Z' {
        let v = (c as u32) + 32;
        let b = v as u8;
        b as char
    } else {
        c
    }
}

/// ASCII case-insensitive string equality.
pub fn eq_ignore_ascii_case(a: &str, b: &str) -> (r: bool)
    ensures
        r == eq_ignore_ascii_case_spec(a@, b@),
{
    let n = a.unicode_len();
    if n != b.unicode_len() {
        return false;
    }
    let mut i: usize = 0;
    while i < n
        invariant
            n == a@.len(),
            n == b@.len(),
            0 <= i <= n,
            forall|j: int| 0 <= j < i ==> ascii_lower(#[trigger] a@[j]) == ascii_lower(b@[j]),
        decreases n - i,
    {
        if to_ascii_lower(a.get_char(i)) != to_ascii_lower(b.get_char(i)) {
            return false;
        }
        i = i + 1;
    }
    true
}

/// The renderer identity of an adapter: its backend and adapter names (or
/// `unknown-backend` / `unknown-adapter` when blank), and whether it is a
/// software (CPU) device.
pub fn renderer_identity(adapter_info: &CompositorAdapterInfo) -> (id: EfficiencyRendererIdentity)
    ensures
        id.backend@ == nonempty_identity_spec(adapter_info.backend@, "unknown-backend"@),
        id.adapter@ == nonempty_identity_spec(adapter_info.name@, "unknown-adapter"@),
        id.software == eq_ignore_ascii_case_spec(adapter_info.device_type@, "cpu"@),
{
    EfficiencyRendererIdentity {
        backend: nonempty_identity(adapter_info.backend.as_str(), "unknown-backend"),
        adapter: nonempty_identity(adapter_info.name.as_str(), "unknown-adapter"),
        software: eq_ignore_ascii_case(adapter_info.device_type.as_str(), "cpu"),
    }
}

/// Errors creating a compositor.
#[derive(Debug, Clone, PartialEq, Eq)]
pub enum CompositorError {
    /// No suitable GPU adapter was found.
    NoAdapter,
    /// The device could not be created.
    DeviceCreation(String),
}

impl CompositorError {
    /// The error message.
    pub fn message(&self) -> (m: String)
        ensures
            match self {
                CompositorError::NoAdapter => m@ == "no suitable GPU adapter found"@,
                CompositorError::DeviceCreation(detail) => m@ == "failed to create device: "@
                    + detail@,
            },
    {
        match self {
            CompositorError::NoAdapter => string_from_str("no suitable GPU adapter found"),
            CompositorError::DeviceCreation(detail) => {
                let mut m = string_from_str("failed to create device: ");
                m.append(detail.as_str());
                m
            },
        }
    }
}

} // verus!
