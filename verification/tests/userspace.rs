//! The driver's manifest and the share that is built from it.
use virtio_nvgpu::categories::Categories;
use virtio_nvgpu::elf::soname;
use virtio_nvgpu::manifest::{parse_entries, parse_manifest, ManifestError};
use virtio_nvgpu::paths::{components, file_name, join, same_path};
use virtio_nvgpu::resolve::{candidates, resolve, Resolved};
use virtio_nvgpu::staging::{
    capability, dangles, refuses, soname_link, staged_driver_version, staged_names, verdict,
    Verdict,
};
use virtio_nvgpu::userspace::{
    default_search_paths, load_manifest, Capability, Entry, FileKind, ManifestFile,
    UserspaceError, DEFAULT_MANIFEST,
};

/// A sample in the driver's format. It carries one of every case the resolver has to get right.
const SAMPLE: &str = r#"[
        {"name": "firmware/gsp_ga10x.bin", "type": "FIRMWARE", "category": ["firmware"]},
        {"name": "nvidia-modprobe", "type": "MODPROBE", "category": ["modprobe"]},
        {"name": "nvidia-smi", "type": "BINARY", "category": ["nvml"]},
        {"name": "libnvidia-ml.so.615.71.09", "type": "LIB", "category": ["nvml"]},
        {"name": "libcuda.so.615.71.09", "type": "LIB", "category": ["cuda", "optix", "vulkan"]},
        {"name": "libnvidia-encode.so.615.71.09", "type": "LIB", "category": ["video"]},
        {"name": "libnvidia-eglcore.so.615.71.09", "type": "LIB", "category": ["egl", "egl_headless"]},
        {"name": "nvidia_icd.json", "type": "JSON", "category": ["vulkan"]},
        {"name": "libnvidia-fbc.so.615.71.09", "type": "LIB", "category": ["xdriver"], "optional": true}
    ]"#;

/// How a real manifest repeats itself: the same file appears once per group of capabilities it
/// serves.
const SAMPLE_WITH_REPEATS: &str = r#"[
        {"name": "libcuda.so.615.71.09", "type": "LIB", "category": ["cuda"]},
        {"name": "libcuda.so.615.71.09", "type": "LIB", "category": ["vulkan"]},
        {"name": "libnvidia-opencl.so.615.71.09", "type": "LIB", "category": ["opencl"]},
        {"name": "libnvidia-opencl.so.615.71.09", "type": "LIB", "category": ["cuda"]}
    ]"#;

fn sample() -> Vec<Entry> {
    parse_manifest(SAMPLE).expect("the sample parses")
}

/// Resolve on a host that has these files below `/t`.
fn resolve_on(entries: &Vec<Entry>, caps: &[Capability], dir: &str, files: &[&str]) -> (Vec<Resolved>, Vec<Entry>) {
    let there: Vec<String> = files.iter().map(|f| format!("/t/{f}")).collect();
    let search = vec![format!("/t/{dir}")];
    let present: Vec<String> = candidates(entries, caps, &search)
        .into_iter()
        .filter(|p| there.contains(p))
        .collect();
    resolve(entries, caps, &search, &present)
}

#[test]
fn parses_every_entry_with_its_kind_and_categories() {
    let e = sample();
    assert_eq!(e.len(), 9);
    assert_eq!(e[2].name, "nvidia-smi");
    assert_eq!(e[2].kind, FileKind::Binary);
    assert!(e[4].categories.contains("cuda"));
    assert!(e[4].categories.contains("vulkan"));
}

#[test]
fn an_unmodelled_field_does_not_lose_the_entry() {
    let e = sample();
    let last = e.last().expect("a last entry");
    assert_eq!(last.name, "libnvidia-fbc.so.615.71.09");
    assert_eq!(last.kind, FileKind::Lib);
}

#[test]
fn firmware_and_modprobe_are_host_only() {
    let e = sample();
    assert!(e[0].is_host_only(), "GSP firmware must not reach a guest");
    assert!(e[1].is_host_only(), "nvidia-modprobe must not reach a guest");
    assert!(!e[2].is_host_only());
}

#[test]
fn capabilities_select_disjoint_sets() {
    let e = sample();
    let names = |caps: &[Capability]| -> Vec<&str> {
        e.iter()
            .filter(|x| !x.is_host_only() && x.wanted_by(caps))
            .map(|x| x.name.as_str())
            .collect()
    };
    assert_eq!(names(&[Capability::Utility]), ["nvidia-smi", "libnvidia-ml.so.615.71.09"]);
    assert_eq!(names(&[Capability::Video]), ["libnvidia-encode.so.615.71.09"]);
    assert!(names(&[Capability::Compute]).contains(&"libcuda.so.615.71.09"));
}

#[test]
fn a_file_in_two_categories_resolves_once() {
    let (found, _) = resolve_on(
        &sample(),
        &[Capability::Compute, Capability::Graphics],
        "lib",
        &["lib/libcuda.so.615.71.09"],
    );
    let cuda: Vec<_> = found
        .iter()
        .filter(|r| r.entry.name.starts_with("libcuda"))
        .collect();
    assert_eq!(cuda.len(), 1, "libcuda was staged {} times", cuda.len());
}

#[test]
fn a_json_keeps_the_directory_tail_its_loader_looks_in() {
    let (found, _) = resolve_on(
        &sample(),
        &[Capability::Graphics],
        "share/vulkan/icd.d",
        &["share/vulkan/icd.d/nvidia_icd.json"],
    );
    let icd = found
        .iter()
        .find(|r| r.entry.name == "nvidia_icd.json")
        .expect("the ICD resolved");
    assert!(
        icd.guest_path.ends_with("vulkan/icd.d/nvidia_icd.json"),
        "an ICD landed at {:?}, where the Vulkan loader will not look",
        icd.guest_path
    );
    assert_eq!(icd.guest_path, "share/vulkan/icd.d/nvidia_icd.json");
}

#[test]
fn a_file_listed_twice_is_staged_once() {
    let entries = parse_manifest(SAMPLE_WITH_REPEATS).expect("parses");
    assert_eq!(entries.len(), 4, "the manifest really does repeat entries");
    let (found, missing) = resolve_on(
        &entries,
        &[Capability::Compute, Capability::Graphics],
        "lib",
        &["lib/libcuda.so.615.71.09"],
    );
    assert_eq!(found.len(), 1, "libcuda staged {} times", found.len());
    assert_eq!(missing.len(), 1, "the absent file was reported {} times", missing.len());
}

#[test]
fn a_repeated_entry_keeps_every_category_it_was_listed_under() {
    let entries = parse_manifest(SAMPLE_WITH_REPEATS).expect("parses");
    let (found, _) = resolve_on(
        &entries,
        &[Capability::Compute, Capability::Graphics],
        "lib",
        &["lib/libcuda.so.615.71.09"],
    );
    let cuda = &found[0].entry;
    assert!(cuda.categories.contains("cuda"));
    assert!(cuda.categories.contains("vulkan"), "categories were {:?}", cuda.categories);
}

#[test]
fn what_is_absent_is_reported_rather_than_failing() {
    let (found, missing) = resolve_on(
        &sample(),
        &[Capability::Compute, Capability::Video],
        "lib",
        &["lib/libcuda.so.615.71.09"],
    );
    assert_eq!(found.len(), 1);
    assert!(
        missing.iter().any(|e| e.name.starts_with("libnvidia-encode")),
        "an absent file should be reported, not silently dropped"
    );
}

#[test]
fn a_manifest_that_is_not_an_array_is_rejected() {
    assert!(parse_manifest("{}").is_err());
    assert!(parse_manifest("[{\"type\": \"LIB\"}]").is_err(), "an entry with no name");
}

#[test]
fn every_fault_of_a_manifest_has_its_words() {
    for (src, want) in [
        ("{}", "expected a top-level array"),
        ("", "expected a top-level array"),
        ("[7]", "expected an object, found '7'"),
        ("[\u{7}]", "expected an object, found '\\u{7}'"),
        ("[", "file ended inside the array"),
        ("[{", "expected a key"),
        ("[{7", "expected a key"),
        ("[{\"a\\\"b\" 1}]", "no ':' after key \"a\\\"b\""),
        ("[{\"a", "file ended inside a string"),
        ("[{\"a\\", "file ended inside an escape"),
        ("[{\"a\": [1]}]", "expected a string in an array"),
        ("[{\"a\": [", "expected a string in an array"),
        ("[{\"type\": \"LIB\"}]", "an entry has no \"name\""),
    ] {
        assert_eq!(parse_manifest(src).unwrap_err(), want, "{src:?}");
    }
    assert_eq!(parse_entries("[x]").unwrap_err(), ManifestError::NotAnObject(b'x'));
}

#[test]
fn a_manifest_is_read_leniently_where_nothing_hangs_on_it() {
    let e = parse_manifest(" [,, {\"name\":\"a\\n\\t\\\\\\\"\",\"name\":\"b\", \"n\": 12.5e3 ,\"x\":null},]rest")
        .expect("parses");
    assert_eq!(e.len(), 1);
    assert_eq!(e[0].name, "b");
    assert_eq!(e[0].kind, FileKind::Other(String::new()));
    let e = parse_manifest("[{\"name\":\"a\\n\\t\\\\\\\"\\u\"}]").expect("parses");
    assert_eq!(e[0].name, "a\n\t\\\"u");
    let e = parse_manifest("[{\"name\":\"é\"}]").expect("parses");
    assert_eq!(e[0].name, "\u{c3}\u{a9}", "bytes outside ASCII stand for themselves");
    let e = parse_manifest("[{\"name\":\"a\",\"category\":[\"x\",,\"y\" \"x\"],\"category\":[\"z\"],\"other\":[\"w\"]}]")
        .expect("parses");
    assert_eq!(e[0].categories.len(), 3);
    for c in ["x", "y", "z"] {
        assert!(e[0].categories.contains(c));
    }
    assert!(!e[0].categories.contains("w"));
}

#[test]
fn kinds_have_their_words() {
    for (word, kind, text) in [
        ("LIB", FileKind::Lib, "lib"),
        ("BINARY", FileKind::Binary, "binary"),
        ("JSON", FileKind::Json, "json"),
        ("ICD", FileKind::Json, "json"),
        ("FIRMWARE", FileKind::Firmware, "firmware"),
        ("SYMLINK", FileKind::Symlink, "symlink"),
        ("MODPROBE", FileKind::Modprobe, "modprobe"),
        ("lib", FileKind::Other("lib".to_string()), "lib"),
        ("WHATEVER", FileKind::Other("WHATEVER".to_string()), "WHATEVER"),
    ] {
        assert_eq!(FileKind::parse(word), kind);
        assert_eq!(kind.to_string(), text);
    }
}

#[test]
fn capabilities_cover_their_categories() {
    assert_eq!(Capability::Utility.categories(), ["nvml", "utils"]);
    assert_eq!(Capability::Compute.categories(), ["cuda", "opencl", "optix"]);
    assert_eq!(Capability::Graphics.categories().len(), 9);
    assert_eq!(Capability::Video.categories(), ["video"]);
    assert_eq!(
        Capability::headless_pipeline(),
        [
            Capability::Utility,
            Capability::Compute,
            Capability::Graphics,
            Capability::Video
        ]
    );
    assert!(!sample()[8].wanted_by(&Capability::headless_pipeline()));
    assert!(!sample()[2].wanted_by(&[]));
}

#[test]
fn capabilities_are_named_in_any_case() {
    assert_eq!(capability("utility"), Ok(Capability::Utility));
    assert_eq!(capability(" Compute\t"), Ok(Capability::Compute));
    assert_eq!(capability("GRAPHICS"), Ok(Capability::Graphics));
    assert_eq!(capability("vidEO"), Ok(Capability::Video));
    assert_eq!(
        capability(" Gr\"aphics ").unwrap_err(),
        "unknown capability \"gr\\\"aphics\" (utility, compute, graphics, video)"
    );
}

#[test]
fn categories_are_a_set() {
    let mut a = Categories::new();
    assert!(a.insert("egl".to_string()));
    assert!(a.insert("cuda".to_string()));
    assert!(!a.insert("egl".to_string()));
    assert_eq!(a.len(), 2);
    let mut b = Categories::new();
    b.insert("cuda".to_string());
    b.insert("egl".to_string());
    assert_eq!(a, b, "the order of insertion does not matter");
    let mut c = Categories::new();
    c.insert("vulkan".to_string());
    c.extend(&a);
    assert_eq!(c.len(), 3);
    assert_eq!(c.copy(), c);
}

#[test]
fn every_wanted_entry_is_found_or_missing() {
    let entries = sample();
    let caps = Capability::headless_pipeline();
    let (found, missing) = resolve_on(&entries, &caps, "lib", &["lib/nvidia-smi", "lib/gsp_ga10x.bin"]);
    assert_eq!(found.len(), 1);
    assert_eq!(found[0].host_path, "/t/lib/nvidia-smi");
    assert_eq!(found[0].guest_path, "bin/nvidia-smi");
    assert_eq!(missing.len(), 5);
    assert!(missing.iter().all(|e| !e.is_host_only()));
}

#[test]
fn the_first_directory_wins() {
    let entries = parse_manifest(r#"[{"name": "x/liba.so", "type": "LIB", "category": ["cuda"]}]"#).unwrap();
    let search = vec!["/a".to_string(), "/b/".to_string()];
    let caps = [Capability::Compute];
    assert_eq!(candidates(&entries, &caps, &search), ["/a/liba.so", "/b/liba.so"]);
    let all = vec!["/b/liba.so".to_string(), "/a/liba.so".to_string()];
    let (found, _) = resolve(&entries, &caps, &search, &all);
    assert_eq!(found[0].host_path, "/a/liba.so");
    assert_eq!(found[0].guest_path, "lib/liba.so");
    let (found, _) = resolve(&entries, &caps, &search, &all[..1].to_vec());
    assert_eq!(found[0].host_path, "/b/liba.so");
}

#[test]
fn a_json_outside_share_keeps_its_directory() {
    let entries = parse_manifest(r#"[{"name": "a.json", "type": "JSON", "category": ["vulkan"]}]"#).unwrap();
    let at = |dir: &str| {
        let p = vec![join(dir, "a.json")];
        let (found, _) = resolve(&entries, &[Capability::Graphics], &vec![dir.to_string()], &p);
        found[0].guest_path.clone()
    };
    assert_eq!(at("/opt/icd.d"), "share/icd.d/a.json");
    assert_eq!(at("/usr/local/share/egl//egl_vendor.d/"), "share/egl/egl_vendor.d/a.json");
    assert_eq!(at("/usr/share"), "share/a.json");
    assert_eq!(at(""), "share/a.json");
    assert_eq!(at("/"), "share/a.json");
}

#[test]
fn paths_go_by_their_components() {
    assert_eq!(components("/usr//lib/./x/"), ["/", "usr", "lib", "x"]);
    assert_eq!(components("./a/../b"), [".", "a", "..", "b"]);
    assert_eq!(components(""), Vec::<String>::new());
    assert_eq!(components("/"), ["/"]);
    for s in ["", "/", ".", "..", "a/..", "./", "a/.", "/a//", "a/b", "//x/./y//", "…/é"] {
        let p = std::path::Path::new(s);
        let want: Vec<String> = p
            .components()
            .map(|c| c.as_os_str().to_string_lossy().into_owned())
            .collect();
        assert_eq!(components(s), want, "{s:?}");
        assert_eq!(file_name(s), p.file_name().map(|n| n.to_string_lossy().into_owned()));
        for t in ["", "/", "x", "/x", "..", "x/y/"] {
            assert_eq!(join(s, t), p.join(t).to_string_lossy());
            assert_eq!(same_path(s, t), p == std::path::Path::new(t));
        }
    }
}

#[test]
fn a_manifest_that_cannot_be_had_says_why() {
    let e = load_manifest("/m", ManifestFile::Absent).unwrap_err();
    assert_eq!(
        e.to_string(),
        "no driver manifest at /m -- this host's driver predates one, or is not installed"
    );
    let e = load_manifest("/m", ManifestFile::Unreadable("denied".to_string())).unwrap_err();
    assert_eq!(e.to_string(), "reading /m: denied");
    let e = load_manifest("/m", ManifestFile::Text("{}".to_string())).unwrap_err();
    assert_eq!(
        e,
        UserspaceError::Malformed {
            path: "/m".to_string(),
            detail: "expected a top-level array".to_string()
        }
    );
    assert_eq!(
        e.to_string(),
        "/m is not the array of objects a driver manifest is: expected a top-level array"
    );
    assert_eq!(load_manifest("/m", ManifestFile::Text(SAMPLE.to_string())).unwrap().len(), 9);
    assert_eq!(default_search_paths().len(), 12);
    assert_eq!(default_search_paths()[3], "/usr/bin");
    assert!(DEFAULT_MANIFEST.ends_with("sandboxutils-filelist.json"));
}

#[test]
fn the_wrong_driver_is_not_staged() {
    let v = |s: &str| Some(s.to_string());
    assert_eq!(verdict(&v("1.2.3"), &v("1.2.3")), Verdict::Matches);
    assert_eq!(verdict(&v("1.2.3"), &v("1.2.4")), Verdict::Differs);
    assert_eq!(verdict(&v("1.2.3"), &None), Verdict::Unchecked);
    assert_eq!(verdict(&None, &v("1.2.3")), Verdict::Unknown);
    assert!(refuses(Verdict::Differs, false));
    assert!(!refuses(Verdict::Differs, true));
    assert!(!refuses(Verdict::Matches, false));
    assert!(!refuses(Verdict::Unchecked, false));
    let (found, _) = resolve_on(
        &sample(),
        &Capability::headless_pipeline(),
        "lib",
        &["lib/nvidia-smi", "lib/libcuda.so.615.71.09"],
    );
    assert_eq!(staged_driver_version(&found).as_deref(), Some("615.71.09"));
    assert_eq!(staged_driver_version(&Vec::new()), None);
    let names = staged_names(&found);
    assert_eq!(names, ["nvidia-smi", "libcuda.so.615.71.09"]);
    assert!(!dangles("../lib/libcuda.so.615.71.09", &names));
    assert!(dangles("libGLX_mesa.so.0", &names));
    assert!(dangles("/", &names));
}

#[test]
fn a_manifest_cut_off_anywhere_is_refused() {
    for text in [SAMPLE, SAMPLE_WITH_REPEATS, r#"[{"name":"a\"b","x":12,"category":["c"]}]"#] {
        let whole = text.trim_end();
        assert!(parse_manifest(whole).is_ok());
        for k in 0..whole.len() {
            assert!(parse_manifest(&whole[..k]).is_err(), "cut at {k}");
        }
    }
}

#[test]
fn joined_manifests_join_their_entries() {
    let a = r#"{"name":"a","type":"LIB","category":["cuda"]}, {"name":"b"}"#;
    let b = r#"{"name":"c","category":["video"]}"#;
    let parse = |body: &str| parse_manifest(&format!("[{body}]")).unwrap();
    let both = parse(&format!("{a},{b}"));
    let mut apart = parse(a);
    apart.extend(parse(b));
    assert_eq!(both, apart);
    assert_eq!(both.len(), 3);
    assert_eq!(both[1].kind, FileKind::Other(String::new()), "nothing carries over");
    assert_eq!(both[1].categories.len(), 0);
    assert!(!both[2].categories.contains("cuda"));
}

#[test]
fn files_come_in_the_order_of_the_manifest_and_doubling_changes_nothing() {
    let entries = parse_manifest(
        r#"[
        {"name": "z.so", "type": "LIB", "category": ["cuda"]},
        {"name": "gone", "type": "LIB", "category": ["cuda"]},
        {"name": "a.so", "type": "LIB", "category": ["nvml"]},
        {"name": "z.so", "type": "LIB", "category": ["vulkan"]},
        {"name": "away", "type": "LIB", "category": ["cuda"]},
        {"name": "gone", "type": "BINARY", "category": ["cuda"]}
    ]"#,
    )
    .unwrap();
    let caps = Capability::headless_pipeline();
    let files = ["lib/z.so", "lib/a.so"];
    let (found, missing) = resolve_on(&entries, &caps, "lib", &files);
    let names: Vec<&str> = found.iter().map(|r| r.entry.name.as_str()).collect();
    assert_eq!(names, ["z.so", "a.so"]);
    assert!(found[0].entry.categories.contains("vulkan"));
    let names: Vec<&str> = missing.iter().map(|e| e.name.as_str()).collect();
    assert_eq!(names, ["gone", "away"]);
    let mut twice = entries.clone();
    twice.extend(entries.clone());
    assert_eq!(resolve_on(&twice, &caps, "lib", &files), (found, missing));
}

/// A library of one loaded segment, whose dynamic section names it `name`.
fn library(name: &[u8]) -> Vec<u8> {
    let mut f = vec![0u8; 64 + 2 * 56];
    f[0..6].copy_from_slice(&[0x7f, b'E', b'L', b'F', 2, 1]);
    f[32..40].copy_from_slice(&64u64.to_le_bytes());
    f[54..56].copy_from_slice(&56u16.to_le_bytes());
    f[56..58].copy_from_slice(&2u16.to_le_bytes());
    let dynamic = f.len() as u64;
    let strings = dynamic + 4 * 16;
    let base = 0x10_0000u64;
    for (tag, value) in [(1u64, 9u64), (5, base + strings), (14, 3), (0, 0)] {
        f.extend(tag.to_le_bytes());
        f.extend(value.to_le_bytes());
    }
    f.extend(b"abc");
    f.extend(name);
    f.push(0);
    let len = f.len() as u64;
    for (at, kind, offset, size) in [(64, 1u32, 0, len), (120, 2, dynamic, 64)] {
        f[at..at + 4].copy_from_slice(&kind.to_le_bytes());
        f[at + 8..at + 16].copy_from_slice(&offset.to_le_bytes());
        f[at + 16..at + 24].copy_from_slice(&(base + offset).to_le_bytes());
        f[at + 32..at + 40].copy_from_slice(&size.to_le_bytes());
    }
    f
}

#[test]
fn a_library_says_what_it_is_found_under() {
    let f = library(b"libcuda.so.1");
    assert_eq!(soname(&f).as_deref(), Some("libcuda.so.1"));
    assert_eq!(soname(&library(b"")), None, "no name");
    assert_eq!(soname(&library(&[0xff])), None, "not text");
    for k in 0..f.len() {
        assert_eq!(soname(&f[..k]), None, "cut at {k}");
    }
    let mut other = f.clone();
    other[4] = 1;
    assert_eq!(soname(&other), None, "32-bit");
    let mut plain = f.clone();
    plain[120] = 4;
    assert_eq!(soname(&plain), None, "no dynamic section");
    assert_eq!(soname(b"{}"), None);
}

#[test]
fn a_library_under_another_name_needs_a_link() {
    assert_eq!(
        soname_link("libcuda.so.1", "lib/libcuda.so.615.71.09").as_deref(),
        Some("libcuda.so.1")
    );
    assert_eq!(soname_link("libcuda.so.1", "lib/libcuda.so.1"), None);
    assert_eq!(soname_link("libcuda.so.1", "/"), None);
}
