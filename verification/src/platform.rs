//! The platform a build runs on: operating system and processor.

use crate::text::equals;
use vstd::prelude::*;
use vstd::string::*;

verus! {

/// An operating system.
#[derive(Debug, Clone, Copy, PartialEq, Eq, Structural)]
pub enum Os {
    Windows,
    MacOS,
    Linux,
    Unknown,
}

/// A processor architecture.
#[derive(Debug, Clone, Copy, PartialEq, Eq, Structural)]
pub enum Arch {
    X86_64,
    Aarch64,
    X86,
    Unknown,
}

/// An operating system on a processor.
#[derive(Debug, Clone, Copy, PartialEq, Eq, Structural)]
pub struct Platform {
    pub os: Os,
    pub arch: Arch,
}

/// The operating system that goes by the name `name`.
pub open spec fn os_named(name: Seq<char>) -> Os {
    if name == "windows"@ {
        Os::Windows
    } else if name == "macos"@ {
        Os::MacOS
    } else if name == "linux"@ {
        Os::Linux
    } else {
        Os::Unknown
    }
}

/// The architecture that goes by the name `name`.
pub open spec fn arch_named(name: Seq<char>) -> Arch {
    if name == "x86_64"@ {
        Arch::X86_64
    } else if name == "aarch64"@ {
        Arch::Aarch64
    } else if name == "x86"@ {
        Arch::X86
    } else {
        Arch::Unknown
    }
}

impl Os {
    /// The name as it is shown.
    pub open spec fn label(self) -> Seq<char> {
        match self {
            Os::Windows => "Windows"@,
            Os::MacOS => "macOS"@,
            Os::Linux => "Linux"@,
            Os::Unknown => "Unknown"@,
        }
    }

    /// The name as it is shown.
    pub fn to_string(&self) -> (r: String)
        ensures
            r@ == self.label(),
    {
        match self {
            Os::Windows => "Windows".to_owned(),
            Os::MacOS => "macOS".to_owned(),
            Os::Linux => "Linux".to_owned(),
            Os::Unknown => "Unknown".to_owned(),
        }
    }
}

impl Arch {
    /// The name as it is shown.
    pub open spec fn label(self) -> Seq<char> {
        match self {
            Arch::X86_64 => "x86_64"@,
            Arch::Aarch64 => "aarch64 (ARM64)"@,
            Arch::X86 => "x86"@,
            Arch::Unknown => "unknown"@,
        }
    }

    /// The name as it is shown.
    pub fn to_string(&self) -> (r: String)
        ensures
            r@ == self.label(),
    {
        match self {
            Arch::X86_64 => "x86_64".to_owned(),
            Arch::Aarch64 => "aarch64 (ARM64)".to_owned(),
            Arch::X86 => "x86".to_owned(),
            Arch::Unknown => "unknown".to_owned(),
        }
    }
}

impl Platform {
    /// The platform whose operating system and architecture go by the
    /// given names; a name that is not known gives `Unknown`.
    pub fn from_names(os: &str, arch: &str) -> (p: Self)
        ensures
            p.os == os_named(os@),
            p.arch == arch_named(arch@),
    {
        let os = if equals(os, "windows") {
            Os::Windows
        } else if equals(os, "macos") {
            Os::MacOS
        } else if equals(os, "linux") {
            Os::Linux
        } else {
            Os::Unknown
        };
        let arch = if equals(arch, "x86_64") {
            Arch::X86_64
        } else if equals(arch, "aarch64") {
            Arch::Aarch64
        } else if equals(arch, "x86") {
            Arch::X86
        } else {
            Arch::Unknown
        };
        Platform { os, arch }
    }

    /// Whether the operating system is Windows.
    pub fn is_windows(&self) -> (b: bool)
        ensures
            b == (self.os == Os::Windows),
    {
        self.os == Os::Windows
    }

    /// Whether the operating system is macOS.
    pub fn is_macos(&self) -> (b: bool)
        ensures
            b == (self.os == Os::MacOS),
    {
        self.os == Os::MacOS
    }

    /// Whether the operating system is Linux.
    pub fn is_linux(&self) -> (b: bool)
        ensures
            b == (self.os == Os::Linux),
    {
        self.os == Os::Linux
    }

    /// Whether the processor is a 64-bit ARM.
    pub fn is_arm64(&self) -> (b: bool)
        ensures
            b == (self.arch == Arch::Aarch64),
    {
        self.arch == Arch::Aarch64
    }

    /// `os (arch)`, as it is shown.
    pub fn to_string(&self) -> (r: String)
        ensures
            r@ == self.os.label() + " ("@ + self.arch.label() + ")"@,
    {
        let mut r = self.os.to_string();
        r.append(" (");
        r.append(self.arch.to_string().as_str());
        r.append(")");
        r
    }
}

} // verus!
