//! Which host files a guest needs in order to drive the forwarded GPU.
//!
//! The guest runs NVIDIA's real user-mode libraries, and those must be the same build as the host
//! kernel driver they end up talking to. So the guest gets the host's copy: this module works out
//! which files that is, from the manifest that the driver installs, and a read-only filesystem
//! share carries them across.
//!
//! Two kinds of entries never go. Firmware is loaded by the host kernel module onto the GPU, and
//! `nvidia-modprobe` exists to load that module. Both are filtered by what they are rather than by
//! name, so a driver that adds a new firmware file does not need a change here.
use crate::categories::Categories;
use crate::manifest::{parse_manifest, spec_manifest};
use crate::text::same_text;
use vstd::prelude::*;
use vstd::string::StringExecFns;
use vstd::utf8::encode_utf8;

verus! {

/// What a file is, as the driver's manifest classifies it.
///
/// Unknown values are kept rather than rejected: a newer driver introducing a type this was not
/// written against should degrade to "carry it if its category matches", not abort.
#[derive(Debug, Clone, PartialEq, Eq, PartialOrd, Ord)]
pub enum FileKind {
    Lib,
    Binary,
    Json,
    Firmware,
    Symlink,
    Modprobe,
    Other(String),
}

/// What a `FileKind` holds.
pub enum KindView {
    Lib,
    Binary,
    Json,
    Firmware,
    Symlink,
    Modprobe,
    Other(Seq<char>),
}

/// The kind that a manifest's word for it stands for.
pub open spec fn kind_of(word: Seq<char>) -> KindView {
    if word == "LIB"@ {
        KindView::Lib
    } else if word == "BINARY"@ {
        KindView::Binary
    } else if word == "JSON"@ || word == "ICD"@ {
        KindView::Json
    } else if word == "FIRMWARE"@ {
        KindView::Firmware
    } else if word == "SYMLINK"@ {
        KindView::Symlink
    } else if word == "MODPROBE"@ {
        KindView::Modprobe
    } else {
        KindView::Other(word)
    }
}

impl FileKind {
    pub open spec fn view(&self) -> KindView {
        match self {
            FileKind::Lib => KindView::Lib,
            FileKind::Binary => KindView::Binary,
            FileKind::Json => KindView::Json,
            FileKind::Firmware => KindView::Firmware,
            FileKind::Symlink => KindView::Symlink,
            FileKind::Modprobe => KindView::Modprobe,
            FileKind::Other(s) => KindView::Other(s@),
        }
    }

    pub fn parse(s: &str) -> (r: Self)
        ensures
            r@ == kind_of(s@),
    {
        if same_text(s, "LIB") {
            FileKind::Lib
        } else if same_text(s, "BINARY") {
            FileKind::Binary
        } else if same_text(s, "JSON") || same_text(s, "ICD") {
            FileKind::Json
        } else if same_text(s, "FIRMWARE") {
            FileKind::Firmware
        } else if same_text(s, "SYMLINK") {
            FileKind::Symlink
        } else if same_text(s, "MODPROBE") {
            FileKind::Modprobe
        } else {
            FileKind::Other(s.to_owned())
        }
    }

    pub fn to_string(&self) -> (r: String)
        ensures
            r@ == self@.text(),
    {
        match self {
            FileKind::Lib => String::from_str("lib"),
            FileKind::Binary => String::from_str("binary"),
            FileKind::Json => String::from_str("json"),
            FileKind::Firmware => String::from_str("firmware"),
            FileKind::Symlink => String::from_str("symlink"),
            FileKind::Modprobe => String::from_str("modprobe"),
            FileKind::Other(s) => s.clone(),
        }
    }

    fn copy(&self) -> (r: Self)
        ensures
            r@ == self@,
    {
        match self {
            FileKind::Lib => FileKind::Lib,
            FileKind::Binary => FileKind::Binary,
            FileKind::Json => FileKind::Json,
            FileKind::Firmware => FileKind::Firmware,
            FileKind::Symlink => FileKind::Symlink,
            FileKind::Modprobe => FileKind::Modprobe,
            FileKind::Other(s) => FileKind::Other(s.clone()),
        }
    }
}

impl KindView {
    pub open spec fn text(self) -> Seq<char> {
        match self {
            KindView::Lib => "lib"@,
            KindView::Binary => "binary"@,
            KindView::Json => "json"@,
            KindView::Firmware => "firmware"@,
            KindView::Symlink => "symlink"@,
            KindView::Modprobe => "modprobe"@,
            KindView::Other(s) => s,
        }
    }
}

/// A coarse capability, in the sense container runtimes use the word: a name for a set of the
/// driver's own finer-grained categories.
#[derive(Debug, Clone, Copy, PartialEq, Eq, PartialOrd, Ord, Structural)]
pub enum Capability {
    /// `nvidia-smi` and NVML: the smallest useful set, and enough to tell whether forwarding works
    /// at all.
    Utility,
    /// CUDA, OpenCL and the PTX JIT.
    Compute,
    /// Vulkan, EGL and GL, with the headless EGL a guest compositor uses.
    Graphics,
    /// NVENC and NVDEC.
    Video,
}

impl Capability {
    pub open spec fn spec_categories(self) -> Seq<Seq<char>> {
        match self {
            Capability::Utility => seq!["nvml"@, "utils"@],
            Capability::Compute => seq!["cuda"@, "opencl"@, "optix"@],
            Capability::Graphics => seq![
                "vulkan"@,
                "egl"@,
                "egl_headless"@,
                "egl_wayland"@,
                "egl_gbm"@,
                "egl_x11"@,
                "glx"@,
                "gbm"@,
                "glvnd"@,
            ],
            Capability::Video => seq!["video"@],
        }
    }

    /// The driver's category names this capability covers.
    pub fn categories(self) -> (r: Vec<&'static str>)
        ensures
            r@.map_values(|s: &'static str| s@) == self.spec_categories(),
    {
        let r: Vec<&'static str> = match self {
            Capability::Utility => vec!["nvml", "utils"],
            Capability::Compute => vec!["cuda", "opencl", "optix"],
            Capability::Graphics => vec![
                "vulkan",
                "egl",
                "egl_headless",
                "egl_wayland",
                "egl_gbm",
                "egl_x11",
                "glx",
                "gbm",
                "glvnd",
            ],
            Capability::Video => vec!["video"],
        };
        assert(r@.map_values(|s: &'static str| s@) =~= self.spec_categories());
        r
    }

    /// What a headless render-and-encode guest needs: everything but the host-only categories.
    pub fn headless_pipeline() -> (r: Vec<Capability>)
        ensures
            r@ == seq![
                Capability::Utility,
                Capability::Compute,
                Capability::Graphics,
                Capability::Video,
            ],
    {
        let r: Vec<Capability> = vec![
            Capability::Utility,
            Capability::Compute,
            Capability::Graphics,
            Capability::Video,
        ];
        assert(r@ =~= seq![
            Capability::Utility,
            Capability::Compute,
            Capability::Graphics,
            Capability::Video,
        ]);
        r
    }
}

/// One file the driver declares.
#[derive(Debug, Clone, PartialEq, Eq)]
pub struct Entry {
    /// As the manifest gives it: usually a bare filename, occasionally with a leading component
    /// such as `firmware/`.
    pub name: String,
    pub kind: FileKind,
    pub categories: Categories,
}

/// What an `Entry` holds.
#[verifier::ext_equal]
pub struct EntryView {
    pub name: Seq<char>,
    pub kind: KindView,
    pub categories: Set<Seq<char>>,
}

impl EntryView {
    /// Whether any of `caps` covers this entry.
    pub open spec fn wanted_by(self, caps: Seq<Capability>) -> bool {
        exists|i: int, j: int|
            0 <= i < caps.len() && 0 <= j < caps[i].spec_categories().len() && self.categories.contains(
                #[trigger] caps[i].spec_categories()[j],
            )
    }

    /// Whether this entry must never be carried into a guest.
    pub open spec fn is_host_only(self) -> bool {
        ||| self.kind is Firmware
        ||| self.kind is Modprobe
        ||| self.categories.contains("firmware"@)
        ||| self.categories.contains("modprobe"@)
    }
}

impl Entry {
    pub open spec fn view(&self) -> EntryView {
        EntryView { name: self.name@, kind: self.kind@, categories: self.categories@ }
    }

    pub open spec fn wf(&self) -> bool {
        self.categories.wf()
    }

    /// Whether any of `caps` covers this entry.
    pub fn wanted_by(&self, caps: &[Capability]) -> (r: bool)
        ensures
            r == self@.wanted_by(caps@),
    {
        let mut i: usize = 0;
        while i < caps.len()
            invariant
                i <= caps@.len(),
                forall|a: int, j: int|
                    0 <= a < i && 0 <= j < caps@[a].spec_categories().len()
                        ==> !self.categories@.contains(#[trigger] caps@[a].spec_categories()[j]),
            decreases caps.len() - i,
        {
            let names: Vec<&'static str> = caps[i].categories();
            let ghost all = names@.map_values(|s: &'static str| s@);
            assert(all == caps@[i as int].spec_categories());
            let mut j: usize = 0;
            while j < names.len()
                invariant
                    i < caps@.len(),
                    j <= names@.len() == all.len(),
                    all == names@.map_values(|s: &'static str| s@),
                    all == caps@[i as int].spec_categories(),
                    forall|k: int| 0 <= k < j ==> !self.categories@.contains(#[trigger] all[k]),
                decreases names.len() - j,
            {
                assert(all[j as int] == names@[j as int]@);
                if self.categories.contains(names[j]) {
                    assert(self@.categories.contains(caps@[i as int].spec_categories()[j as int]));
                    return true;
                }
                j = j + 1;
            }
            i = i + 1;
        }
        false
    }

    /// Whether this entry must never be carried into a guest, whatever capability asked for it.
    pub fn is_host_only(&self) -> (r: bool)
        ensures
            r == self@.is_host_only(),
    {
        let by_kind: bool = match self.kind {
            FileKind::Firmware | FileKind::Modprobe => true,
            _ => false,
        };
        by_kind || self.categories.contains("firmware") || self.categories.contains("modprobe")
    }

    /// The same entry once more.
    pub fn copy(&self) -> (r: Self)
        requires
            self.wf(),
        ensures
            r.wf(),
            r@ == self@,
    {
        Entry {
            name: self.name.clone(),
            kind: self.kind.copy(),
            categories: self.categories.copy(),
        }
    }
}

pub open spec fn entry_views(entries: Seq<Entry>) -> Seq<EntryView> {
    entries.map_values(|e: Entry| e@)
}

pub open spec fn entries_wf(entries: Seq<Entry>) -> bool {
    forall|i: int| 0 <= i < entries.len() ==> (#[trigger] entries[i]).wf()
}

/// The driver's own manifest, on a host where one is installed.
pub const DEFAULT_MANIFEST: &'static str = "/usr/share/nvidia/files.d/sandboxutils-filelist.json";

pub open spec fn spec_default_search_paths() -> Seq<Seq<char>> {
    seq![
        "/usr/lib"@,
        "/usr/lib64"@,
        "/usr/lib/x86_64-linux-gnu"@,
        "/usr/bin"@,
        "/usr/share/vulkan/icd.d"@,
        "/usr/share/vulkan/implicit_layer.d"@,
        "/usr/share/vulkansc/icd.d"@,
        "/usr/share/glvnd/egl_vendor.d"@,
        "/usr/share/nvidia"@,
        "/usr/lib/nvidia"@,
        "/usr/lib/xorg/modules/drivers"@,
        "/usr/lib/xorg/modules/extensions"@,
    ]
}

/// Directories a manifest entry's bare name is resolved against, in order.
///
/// The manifest gives basenames, not paths, because where a distribution puts them is the
/// distribution's business.
pub fn default_search_paths() -> (r: Vec<String>)
    ensures
        crate::paths::texts(r@) == spec_default_search_paths(),
{
    let mut r: Vec<String> = Vec::new();
    r.push(String::from_str("/usr/lib"));
    r.push(String::from_str("/usr/lib64"));
    r.push(String::from_str("/usr/lib/x86_64-linux-gnu"));
    r.push(String::from_str("/usr/bin"));
    r.push(String::from_str("/usr/share/vulkan/icd.d"));
    r.push(String::from_str("/usr/share/vulkan/implicit_layer.d"));
    r.push(String::from_str("/usr/share/vulkansc/icd.d"));
    r.push(String::from_str("/usr/share/glvnd/egl_vendor.d"));
    r.push(String::from_str("/usr/share/nvidia"));
    r.push(String::from_str("/usr/lib/nvidia"));
    r.push(String::from_str("/usr/lib/xorg/modules/drivers"));
    r.push(String::from_str("/usr/lib/xorg/modules/extensions"));
    assert(crate::paths::texts(r@) =~= spec_default_search_paths());
    r
}

/// Why the driver's files cannot be told.
#[derive(Debug, Clone, PartialEq, Eq)]
pub enum UserspaceError {
    NoManifest(String),
    Io { path: String, source: String },
    Malformed { path: String, detail: String },
}

impl UserspaceError {
    pub open spec fn text(&self) -> Seq<char> {
        match self {
            UserspaceError::NoManifest(path) => "no driver manifest at "@ + path@
                + " -- this host's driver predates one, or is not installed"@,
            UserspaceError::Io { path, source } => "reading "@ + path@ + ": "@ + source@,
            UserspaceError::Malformed { path, detail } => path@
                + " is not the array of objects a driver manifest is: "@ + detail@,
        }
    }

    pub fn to_string(&self) -> (r: String)
        ensures
            r@ == self.text(),
    {
        let mut r: String = String::new();
        match self {
            UserspaceError::NoManifest(path) => {
                r.append("no driver manifest at ");
                r.append(path.as_str());
                r.append(" -- this host's driver predates one, or is not installed");
            },
            UserspaceError::Io { path, source } => {
                r.append("reading ");
                r.append(path.as_str());
                r.append(": ");
                r.append(source.as_str());
            },
            UserspaceError::Malformed { path, detail } => {
                r.append(path.as_str());
                r.append(" is not the array of objects a driver manifest is: ");
                r.append(detail.as_str());
            },
        }
        assert(r@ =~= self.text());
        r
    }
}

/// What reading the manifest's file came to.
pub enum ManifestFile {
    Absent,
    /// It is there, but reading it failed with this message.
    Unreadable(String),
    Text(String),
}

/// The entries of the manifest that this host's driver installed at `path`.
pub fn load_manifest(path: &str, file: ManifestFile) -> (r: core::result::Result<
    Vec<Entry>,
    UserspaceError,
>)
    ensures
        match file {
            ManifestFile::Absent => r matches Err(UserspaceError::NoManifest(p)) && p@ == path@,
            ManifestFile::Unreadable(why) => r matches Err(UserspaceError::Io { path: p, source })
                && p@ == path@ && source@ == why@,
            ManifestFile::Text(src) => match spec_manifest(encode_utf8(src@)) {
                Ok(views) => r matches Ok(entries) && entries_wf(entries@) && entry_views(entries@)
                    == views,
                Err(e) => r matches Err(UserspaceError::Malformed { path: p, detail }) && p@
                    == path@ && detail@ == e.text(),
            },
        },
{
    match file {
        ManifestFile::Absent => Err(UserspaceError::NoManifest(path.to_owned())),
        ManifestFile::Unreadable(source) => Err(
            UserspaceError::Io { path: path.to_owned(), source },
        ),
        ManifestFile::Text(src) => match parse_manifest(src.as_str()) {
            Ok(entries) => Ok(entries),
            Err(detail) => Err(UserspaceError::Malformed { path: path.to_owned(), detail }),
        },
    }
}

} // verus!
