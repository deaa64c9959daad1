//! Named configuration values, rendered as text.
use vstd::prelude::*;
use std::fmt::Display;
use vstd::string::to_string_from_display_ensures;

verus! {

broadcast use vstd::string::group_string_axioms;

/// A configuration value with its name.
pub struct Define {
    name: &'static str,
    value: String,
}

impl Define {
    /// The name.
    pub closed spec fn name_spec(self) -> &'static str {
        self.name
    }

    /// The value as text.
    pub closed spec fn value_spec(self) -> String {
        self.value
    }

    /// The value `value`, as its `Display` renders it, under `name`.
    pub fn new<T: Display>(name: &'static str, value: T) -> (d: Self)
        ensures
            d.name_spec() == name,
            to_string_from_display_ensures::<T>(&value, d.value_spec()),
    {
        Self { name, value: value.to_string() }
    }

    /// A flag under `name`, rendered as `1` or `0`.
    pub fn bool(name: &'static str, value: bool) -> (d: Self)
        ensures
            d.name_spec() == name,
            d.value_spec()@ == (if value { "1"@ } else { "0"@ }),
    {
        let text: &str = if value {
            "1"
        } else {
            "0"
        };
        Self { name, value: text.to_string() }
    }

    /// The name.
    pub fn name(&self) -> (r: &'static str)
        ensures
            r == self.name_spec(),
    {
        self.name
    }

    /// The value as text.
    pub fn value(&self) -> (r: &str)
        ensures
            r@ == self.value_spec()@,
    {
        self.value.as_str()
    }
}

/// The x86 architectures.
#[derive(Debug, Clone, Copy, PartialEq, Eq, Structural)]
pub enum ArchX86 {
    X86_32,
    X86_64,
}

/// The Arm architectures.
#[derive(Debug, Clone, Copy, PartialEq, Eq, Structural)]
pub enum ArchArm {
    Arm32,
    Arm64,
}

/// A target architecture.
#[derive(Debug, Clone, Copy, PartialEq, Eq, Structural)]
pub enum Arch {
    X86(ArchX86),
    Arm(ArchArm),
}

/// The architecture a target name stands for, if any.
pub open spec fn arch_of(name: Seq<char>) -> Option<Arch> {
    if name == "x86"@ {
        Some(Arch::X86(ArchX86::X86_32))
    } else if name == "x86_64"@ {
        Some(Arch::X86(ArchX86::X86_64))
    } else if name == "arm"@ {
        Some(Arch::Arm(ArchArm::Arm32))
    } else if name == "aarch64"@ {
        Some(Arch::Arm(ArchArm::Arm64))
    } else {
        None
    }
}

/// Whether `a` spells `lit`.
fn str_is(a: &str, lit: &str) -> (r: bool)
    ensures
        r == (a@ == lit@),
{
    let x = crate::text::to_chars(a);
    let y = crate::text::to_chars(lit);
    crate::text::eq_chars(x.as_slice(), y.as_slice())
}

impl Arch {
    /// The architecture named `arch`; any other name is refused with
    /// `unexpected arch: ` and the name.
    pub fn from_str(arch: &str) -> (r: Result<Arch, String>)
        ensures
            match arch_of(arch@) {
                Some(a) => r == Ok::<Arch, String>(a),
                None => r is Err && r->Err_0@ == "unexpected arch: "@ + arch@,
            },
    {
        if str_is(arch, "x86") {
            Ok(Arch::X86(ArchX86::X86_32))
        } else if str_is(arch, "x86_64") {
            Ok(Arch::X86(ArchX86::X86_64))
        } else if str_is(arch, "arm") {
            Ok(Arch::Arm(ArchArm::Arm32))
        } else if str_is(arch, "aarch64") {
            Ok(Arch::Arm(ArchArm::Arm64))
        } else {
            let mut e = "unexpected arch: ".to_string();
            e.append(arch);
            Err(e)
        }
    }
}

/// `1` for true, `0` for false.
pub open spec fn flag_text(v: bool) -> Seq<char> {
    if v {
        "1"@
    } else {
        "0"@
    }
}

/// The name and value of each configuration entry for a build on `arch`
/// with operating system `os` and vendor `vendor`, where `avx` says whether
/// the target has the AVX feature.
pub open spec fn config_entries(arch: Arch, os: Seq<char>, vendor: Seq<char>, avx: bool) -> Seq<(Seq<char>, Seq<char>)> {
    let common = seq![("CONFIG_ASM"@, "1"@), ("CONFIG_LOG"@, "1"@)];
    let prefix = if vendor == "apple"@ || (os == "windows"@ && arch == Arch::X86(ArchX86::X86_32)) {
        seq![("PREFIX"@, "1"@)]
    } else {
        Seq::empty()
    };
    let specific = match arch {
        Arch::X86(a) => seq![
            ("private_prefix"@, "dav1d"@),
            ("ARCH_X86_32"@, flag_text(a == ArchX86::X86_32)),
            ("ARCH_X86_64"@, flag_text(a == ArchX86::X86_64)),
            (
                "STACK_ALIGNMENT"@,
                if a == ArchX86::X86_64 || os == "linux"@ || vendor == "apple"@ {
                    "16"@
                } else {
                    "4"@
                },
            ),
            ("PIC"@, "1"@),
            ("FORCE_VEX_ENCODING"@, flag_text(avx)),
        ],
        Arch::Arm(a) => seq![
            ("PRIVATE_PREFIX"@, "dav1d_"@),
            ("ARCH_ARM"@, flag_text(a == ArchArm::Arm32)),
            ("ARCH_AARCH64"@, flag_text(a == ArchArm::Arm64)),
        ],
    };
    common + prefix + specific
}

/// The name and value of each entry.
pub open spec fn entries_of(ds: Seq<Define>) -> Seq<(Seq<char>, Seq<char>)> {
    ds.map_values(|d: Define| (d.name_spec()@, d.value_spec()@))
}

/// An entry whose value is the text `value`.
fn text_define(name: &'static str, value: &str) -> (d: Define)
    ensures
        d.name_spec() == name,
        d.value_spec()@ == value@,
{
    Define { name, value: value.to_string() }
}

/// Whether one of the comma-separated features in `features` is `name`.
pub fn has_feature(features: &str, name: &str) -> (r: bool)
    ensures
        r == crate::text::words(features@, seq![',']).contains(name@),
{
    let chars = crate::text::to_chars(features);
    let want = crate::text::to_chars(name);
    let comma = [','];
    assert(comma@ =~= seq![',']);
    let bounds = crate::text::word_bounds(chars.as_slice(), &comma);
    let ghost ws = crate::text::words(features@, seq![',']);
    let mut i: usize = 0;
    while i < bounds.len()
        invariant
            i <= bounds@.len(),
            chars@ == features@,
            want@ == name@,
            ws == crate::text::words(features@, seq![',']),
            crate::text::bounds_valid(chars@, bounds@),
            crate::text::bounds_text(chars@, bounds@) == ws,
            forall|k: int| 0 <= k < i ==> ws[k] != name@,
        decreases bounds.len() - i,
    {
        let (lo, hi) = bounds[i];
        let w = crate::text::slice_range(chars.as_slice(), lo, hi);
        if crate::text::eq_chars(w, want.as_slice()) {
            assert(ws.len() == bounds@.len());
            assert(ws[i as int] == name@);
            assert(ws.contains(name@));
            return true;
        }
        i = i + 1;
    }
    proof {
        if ws.contains(name@) {
            let k = choose|k: int| 0 <= k < ws.len() && ws[k] == name@;
            assert(ws[k] != name@);
        }
    }
    false
}

/// The configuration entries for a build on `arch` with operating system
/// `os`, vendor `vendor` and the comma-separated target features
/// `features`.
pub fn config_defines(arch: Arch, os: &str, vendor: &str, features: &str) -> (r: Vec<Define>)
    ensures
        entries_of(r@) == config_entries(
            arch,
            os@,
            vendor@,
            crate::text::words(features@, seq![',']).contains("avx"@),
        ),
{
    let mut defines: Vec<Define> = Vec::new();
    defines.push(Define::bool("CONFIG_ASM", true));
    defines.push(Define::bool("CONFIG_LOG", true));
    if str_is(vendor, "apple") || (str_is(os, "windows") && arch == Arch::X86(ArchX86::X86_32)) {
        defines.push(Define::bool("PREFIX", true));
    }
    match arch {
        Arch::X86(a) => {
            defines.push(text_define("private_prefix", "dav1d"));
            defines.push(Define::bool("ARCH_X86_32", a == ArchX86::X86_32));
            defines.push(Define::bool("ARCH_X86_64", a == ArchX86::X86_64));
            let alignment: &str = if a == ArchX86::X86_64 || str_is(os, "linux") || str_is(vendor, "apple") {
                "16"
            } else {
                "4"
            };
            defines.push(text_define("STACK_ALIGNMENT", alignment));
            defines.push(Define::bool("PIC", true));
            defines.push(Define::bool("FORCE_VEX_ENCODING", has_feature(features, "avx")));
        },
        Arch::Arm(a) => {
            defines.push(text_define("PRIVATE_PREFIX", "dav1d_"));
            defines.push(Define::bool("ARCH_ARM", a == ArchArm::Arm32));
            defines.push(Define::bool("ARCH_AARCH64", a == ArchArm::Arm64));
        },
    }
    proof {
        assert(entries_of(defines@) =~= config_entries(
            arch,
            os@,
            vendor@,
            crate::text::words(features@, seq![',']).contains("avx"@),
        ));
    }
    defines
}

/// One line of the configuration file: `prefix`, `define `, the name, a
/// space and the value.
pub open spec fn config_line(prefix: Seq<char>, e: (Seq<char>, Seq<char>)) -> Seq<char> {
    prefix + "define "@ + e.0 + " "@ + e.1
}

/// The lines of the entries `es`, joined with newlines.
pub open spec fn config_text(prefix: Seq<char>, es: Seq<(Seq<char>, Seq<char>)>) -> Seq<char>
    decreases es.len(),
{
    if es.len() == 0 {
        Seq::empty()
    } else if es.len() == 1 {
        config_line(prefix, es[0])
    } else {
        config_text(prefix, es.drop_last()) + "\n"@ + config_line(prefix, es.last())
    }
}

/// The contents of the configuration file: one line per entry, each
/// opening with `%` where `use_nasm` holds and with ` #` otherwise.
pub fn config_contents(defines: &Vec<Define>, use_nasm: bool) -> (r: String)
    ensures
        r@ == config_text(if use_nasm { "%"@ } else { " #"@ }, entries_of(defines@)),
{
    let prefix: &str = if use_nasm {
        "%"
    } else {
        " #"
    };
    let ghost es = entries_of(defines@);
    let mut out = String::new();
    let mut i: usize = 0;
    while i < defines.len()
        invariant
            i <= defines@.len(),
            es == entries_of(defines@),
            out@ == config_text(prefix@, es.take(i as int)),
        decreases defines.len() - i,
    {
        if i > 0 {
            out.append("\n");
        }
        out.append(prefix);
        out.append("define ");
        out.append(defines[i].name());
        out.append(" ");
        out.append(defines[i].value());
        proof {
            let t = es.take(i + 1);
            assert(t.drop_last() =~= es.take(i as int));
            assert(t.last() == es[i as int]);
        }
        i = i + 1;
    }
    assert(es.take(defines@.len() as int) =~= es);
    out
}

/// The configuration file for a build on the target named `arch`, with
/// operating system `os`, vendor `vendor` and the comma-separated target
/// features `features`: its name (`config.asm` for x86, assembled with
/// nasm, `config.h` otherwise) and its contents; nothing for an unknown
/// architecture.
pub fn generate_config(arch: &str, os: &str, vendor: &str, features: &str) -> (r: Option<(String, String)>)
    ensures
        match arch_of(arch@) {
            None => r is None,
            Some(a) => r is Some && ({
                let nasm = a is X86;
                let (name, contents) = r->0;
                &&& name@ == (if nasm { "config.asm"@ } else { "config.h"@ })
                &&& contents@ == config_text(
                    if nasm { "%"@ } else { " #"@ },
                    config_entries(a, os@, vendor@, crate::text::words(features@, seq![',']).contains("avx"@)),
                )
            }),
        },
{
    let arch = match Arch::from_str(arch) {
        Ok(a) => a,
        Err(_) => return None,
    };
    let defines = config_defines(arch, os, vendor, features);
    let use_nasm = match arch {
        Arch::X86(..) => true,
        Arch::Arm(..) => false,
    };
    let contents = config_contents(&defines, use_nasm);
    let name: &str = if use_nasm {
        "config.asm"
    } else {
        "config.h"
    };
    Some((name.to_string(), contents))
}

} // verus!
