use asset_manifest::assemble::AssemblyError;
use asset_manifest::asset::{AssetSource, AssetType, FileAsset, TailwindAsset};
use asset_manifest::codec::decode::DecodeError;
use asset_manifest::codec::encode::{encode_asset, encode_blob};
use asset_manifest::manifest::AssetManifest;
use asset_manifest::scan::{
    artifact_kind, descriptors_in_archive, descriptors_in_object, descriptors_in_sections,
    find_marker, marker_text, member_data, member_is_object, scan, scan_artifact,
    strip_control, ArchiveEntry, Artifact, ArtifactKind, Section, SECTION_NAME,
};
use object::write::Object;
use object::{Architecture, BinaryFormat, Endianness, SectionFlags, SectionKind};

fn file_asset(path: &str) -> AssetType {
    AssetType::File(FileAsset::new(
        AssetSource::Local(path.to_string()),
        Ok(format!("/{}", path)),
    ))
}

/// An ELF object with a text section and, where `marker` is given, a
/// section of the marker's name with these contents.
fn object_with(marker: Option<&[u8]>) -> Vec<u8> {
    let mut object = Object::new(BinaryFormat::Elf, Architecture::X86_64, Endianness::Little);
    let text = object.add_section(Vec::new(), b".text".to_vec(), SectionKind::Text);
    object.append_section_data(text, &[0x90, 0xc3], 1);
    if let Some(contents) = marker {
        let section = object.add_section(
            Vec::new(),
            SECTION_NAME.as_bytes().to_vec(),
            SectionKind::ReadOnlyData,
        );
        object.append_section_data(section, contents, 1);
    }
    object.write().unwrap()
}

/// An archive in the common format with these members.
fn archive_of(members: &[(&str, &[u8])]) -> Vec<u8> {
    let mut out = b"!<arch>\n".to_vec();
    for (name, data) in members {
        let header = format!(
            "{:<16}{:<12}{:<6}{:<6}{:<8}{:<10}`\n",
            format!("{}/", name),
            0,
            0,
            0,
            "644",
            data.len()
        );
        assert_eq!(header.len(), 60);
        out.extend_from_slice(header.as_bytes());
        out.extend_from_slice(data);
        if data.len() % 2 == 1 {
            out.push(b'\n');
        }
    }
    out
}

#[test]
fn files_are_told_apart_by_their_extension() {
    assert_eq!(artifact_kind("demo-1a2b.o"), Some(ArtifactKind::Object));
    assert_eq!(artifact_kind("libdemo-1a2b.rlib"), Some(ArtifactKind::Archive));
    assert_eq!(artifact_kind("a.b.o"), Some(ArtifactKind::Object));
    assert_eq!(artifact_kind("demo.d"), None);
    assert_eq!(artifact_kind("demo.rmeta"), None);
    assert_eq!(artifact_kind("demo"), None);
    assert_eq!(artifact_kind(".o"), None);
    assert_eq!(artifact_kind(".rlib"), None);
    assert_eq!(artifact_kind("o"), None);
    assert_eq!(artifact_kind(""), None);
    assert_eq!(artifact_kind("demo.O"), None);
}

#[test]
fn members_are_objects_by_their_name() {
    assert!(member_is_object(&b"demo.o".to_vec()));
    assert!(member_is_object(&b".o".to_vec()));
    assert!(!member_is_object(&b"lib.rmeta".to_vec()));
    assert!(!member_is_object(&b"o".to_vec()));
    assert!(!member_is_object(&Vec::new()));
}

#[test]
fn control_characters_are_stripped() {
    assert_eq!(strip_control("\u{0}T\"a\"\n\r\u{7f}\u{85}b\u{e9}"), "T\"a\"b\u{e9}");
    assert_eq!(strip_control(""), "");
}

#[test]
fn the_text_of_a_marker_section() {
    assert_eq!(marker_text(b"\0T\"a\""), Ok("T\"a\"".to_string()));
    assert_eq!(marker_text(b""), Ok(String::new()));
    assert_eq!(marker_text(&[b'T', 0xff, b'a']), Err(AssemblyError::InvalidUtf8));
    assert_eq!(marker_text(&[0xc3]), Err(AssemblyError::InvalidUtf8));
}

#[test]
fn the_first_marker_section_counts() {
    let section = |name: Option<&str>, data: Option<&[u8]>| Section {
        name: name.map(|n| n.to_string()),
        data: data.map(|d| d.to_vec()),
    };
    let one = encode_asset(&file_asset("a.png"));
    let two = encode_asset(&file_asset("b.png"));
    let sections = vec![
        section(Some(".text"), Some(b"T\"x\"")),
        section(None, Some(b"T\"y\"")),
        section(Some(SECTION_NAME), Some(one.as_bytes())),
        section(Some(SECTION_NAME), Some(two.as_bytes())),
    ];
    assert_eq!(find_marker(&sections), Some(2));
    assert_eq!(descriptors_in_sections(&sections), Ok(vec![file_asset("a.png")]));

    let none = vec![section(Some(".text"), None), section(Some("manganis2"), None)];
    assert_eq!(find_marker(&none), None);
    assert_eq!(descriptors_in_sections(&none), Ok(Vec::new()));
    assert_eq!(descriptors_in_sections(&Vec::new()), Ok(Vec::new()));

    let unreadable = vec![section(Some(SECTION_NAME), None)];
    assert_eq!(
        descriptors_in_sections(&unreadable),
        Err(AssemblyError::ContainerParse)
    );
    let not_utf8 = vec![section(Some(SECTION_NAME), Some(&[0xff]))];
    assert_eq!(descriptors_in_sections(&not_utf8), Err(AssemblyError::InvalidUtf8));
    let no_records = vec![section(Some(SECTION_NAME), Some(b"T\"a\"{}"))];
    assert_eq!(
        descriptors_in_sections(&no_records),
        Err(AssemblyError::DescriptorDecode(DecodeError { offset: 4 }))
    );
}

#[test]
fn an_object_without_marker_section_has_no_descriptors() {
    let data = object_with(None);
    assert_eq!(descriptors_in_object(&data), Ok(Vec::new()));
    assert_eq!(scan_artifact("a.o", ArtifactKind::Object, &data), Ok(None));
    let manifest = scan(&vec![Artifact { file_name: "a.o".to_string(), data }]).unwrap();
    assert_eq!(manifest, AssetManifest::default());
    assert!(manifest.assets().is_empty());
}

#[test]
fn the_records_of_an_object_are_read() {
    let assets = vec![
        file_asset("a.png"),
        AssetType::Tailwind(TailwindAsset::new("flex\tp-4".to_string())),
    ];
    let data = object_with(Some(encode_blob(&assets).as_bytes()));
    assert_eq!(descriptors_in_object(&data), Ok(assets));
}

#[test]
fn a_null_byte_before_the_records_is_passed_over() {
    let mut contents = vec![0u8];
    contents.extend_from_slice(encode_asset(&file_asset("a.png")).as_bytes());
    let data = object_with(Some(&contents));
    assert_eq!(descriptors_in_object(&data), Ok(vec![file_asset("a.png")]));
}

#[test]
fn an_empty_marker_section_has_no_descriptors() {
    let data = object_with(Some(b""));
    assert_eq!(descriptors_in_object(&data), Ok(Vec::new()));
}

#[test]
fn what_is_no_object_fails() {
    assert_eq!(descriptors_in_object(b""), Err(AssemblyError::ContainerParse));
    assert_eq!(
        descriptors_in_object(b"this is no object file"),
        Err(AssemblyError::ContainerParse)
    );
    let mut cut = object_with(None);
    cut.truncate(20);
    assert_eq!(descriptors_in_object(&cut), Err(AssemblyError::ContainerParse));
}

#[test]
fn bad_records_in_an_object_fail() {
    let data = object_with(Some(b"{\"File\":1}"));
    assert_eq!(
        descriptors_in_object(&data),
        Err(AssemblyError::DescriptorDecode(DecodeError { offset: 0 }))
    );
    let data = object_with(Some(&[b'T', b'"', 0xff, b'"']));
    assert_eq!(descriptors_in_object(&data), Err(AssemblyError::InvalidUtf8));
}

#[test]
fn an_archive_of_two_objects_gives_two_files() {
    let first = object_with(Some(encode_asset(&file_asset("a.png")).as_bytes()));
    let second = object_with(Some(encode_asset(&file_asset("b.png")).as_bytes()));
    let archive = archive_of(&[("first.o", &first), ("second.o", &second)]);
    assert_eq!(
        descriptors_in_archive(&archive),
        Ok(vec![file_asset("a.png"), file_asset("b.png")])
    );

    let manifest = scan(&vec![Artifact {
        file_name: "libdemo.rlib".to_string(),
        data: archive,
    }])
    .unwrap();
    assert_eq!(manifest.packages().len(), 1);
    assert_eq!(manifest.packages()[0].package(), "libdemo.rlib");
    assert_eq!(manifest.assets().len(), 2);
    assert!(manifest.assets().iter().all(|a| matches!(a, AssetType::File(_))));
    assert_eq!(manifest.file_assets().len(), 2);
}

#[test]
fn members_that_are_no_objects_are_passed_over() {
    let object = object_with(Some(encode_asset(&file_asset("a.png")).as_bytes()));
    let archive = archive_of(&[
        ("lib.rmeta", b"no object at all"),
        ("plain.o", &object_with(None)),
        ("odd", b"abc"),
        ("demo.o", &object),
    ]);
    assert_eq!(descriptors_in_archive(&archive), Ok(vec![file_asset("a.png")]));
}

#[test]
fn an_archive_without_members_has_no_descriptors() {
    assert_eq!(descriptors_in_archive(b"!<arch>\n"), Ok(Vec::new()));
}

#[test]
fn a_broken_archive_fails() {
    assert_eq!(descriptors_in_archive(b""), Err(AssemblyError::ContainerParse));
    assert_eq!(
        descriptors_in_archive(b"!<arch>\nshort"),
        Err(AssemblyError::ContainerParse)
    );
    let broken = archive_of(&[("demo.o", b"no object at all")]);
    assert_eq!(descriptors_in_archive(&broken), Err(AssemblyError::ContainerParse));
    // the object is no archive, and the archive no object
    assert_eq!(
        descriptors_in_archive(&object_with(None)),
        Err(AssemblyError::ContainerParse)
    );
    assert_eq!(
        descriptors_in_object(&archive_of(&[])),
        Err(AssemblyError::ContainerParse)
    );
}

#[test]
fn a_member_lies_within_its_archive() {
    let data = b"0123456789".to_vec();
    let entry = |offset: u64, size: u64| ArchiveEntry { name: b"a.o".to_vec(), offset, size };
    assert_eq!(member_data(&data, &entry(2, 3)), Some(&b"234"[..]));
    assert_eq!(member_data(&data, &entry(0, 10)), Some(&data[..]));
    assert_eq!(member_data(&data, &entry(10, 0)), Some(&b""[..]));
    assert_eq!(member_data(&data, &entry(8, 3)), None);
    assert_eq!(member_data(&data, &entry(11, 0)), None);
    assert_eq!(member_data(&data, &entry(u64::MAX, 1)), None);
    assert_eq!(member_data(&data, &entry(1, u64::MAX)), None);
}

#[test]
fn a_scan_takes_the_artifacts_in_order() {
    let object = object_with(Some(encode_asset(&file_asset("a.png")).as_bytes()));
    let inner = object_with(Some(encode_asset(&file_asset("b.png")).as_bytes()));
    let files = vec![
        Artifact { file_name: "notes.txt".to_string(), data: b"no artifact".to_vec() },
        Artifact { file_name: "empty.o".to_string(), data: object_with(None) },
        Artifact { file_name: "demo.o".to_string(), data: object },
        Artifact {
            file_name: "libdep.rlib".to_string(),
            data: archive_of(&[("dep.o", &inner)]),
        },
    ];
    let manifest = scan(&files).unwrap();
    assert_eq!(manifest.packages().len(), 2);
    assert_eq!(manifest.packages()[0].package(), "demo.o");
    assert_eq!(manifest.packages()[1].package(), "libdep.rlib");
    assert_eq!(manifest.assets(), &vec![file_asset("a.png"), file_asset("b.png")]);
}

#[test]
fn one_broken_artifact_fails_the_scan() {
    let object = object_with(Some(encode_asset(&file_asset("a.png")).as_bytes()));
    let files = vec![
        Artifact { file_name: "demo.o".to_string(), data: object },
        Artifact { file_name: "broken.o".to_string(), data: b"broken".to_vec() },
    ];
    assert_eq!(scan(&files), Err(AssemblyError::ContainerParse));
}

#[test]
fn a_scan_of_nothing_gives_the_empty_manifest() {
    assert_eq!(scan(&Vec::new()), Ok(AssetManifest::default()));
    let files = vec![Artifact { file_name: "README".to_string(), data: Vec::new() }];
    assert_eq!(scan(&files), Ok(AssetManifest::default()));
}

/// An ELF object with one section of the given name that is flagged as
/// compressed and has these contents.
fn object_with_compressed(name: &[u8], contents: &[u8]) -> Vec<u8> {
    let mut object = Object::new(BinaryFormat::Elf, Architecture::X86_64, Endianness::Little);
    let section = object.add_section(Vec::new(), name.to_vec(), SectionKind::ReadOnlyData);
    object.append_section_data(section, contents, 1);
    object.section_mut(section).flags = SectionFlags::Elf {
        sh_flags: u64::from(object::elf::SHF_COMPRESSED),
    };
    object.write().unwrap()
}

/// The header of a section compressed with zlib that declares the given
/// size, and a few bytes after it.
fn compression_header(declared_size: u64) -> Vec<u8> {
    let mut header = Vec::new();
    header.extend_from_slice(&object::elf::ELFCOMPRESS_ZLIB.to_le_bytes());
    header.extend_from_slice(&0u32.to_le_bytes());
    header.extend_from_slice(&declared_size.to_le_bytes());
    header.extend_from_slice(&1u64.to_le_bytes());
    header.extend_from_slice(&[0x78, 0x9c, 0x03, 0x00]);
    header
}

#[test]
fn a_compressed_section_of_another_name_is_left_alone() {
    let data = object_with_compressed(b".debug_info", &compression_header(u64::MAX));
    assert_eq!(descriptors_in_object(&data), Ok(Vec::new()));
    assert_eq!(scan_artifact("a.o", ArtifactKind::Object, &data), Ok(None));
}

#[test]
fn a_marker_section_is_read_as_it_stands_in_the_file() {
    let records = encode_asset(&file_asset("a.png"));
    let data = object_with_compressed(SECTION_NAME.as_bytes(), records.as_bytes());
    assert_eq!(descriptors_in_object(&data), Ok(vec![file_asset("a.png")]));

    let data = object_with_compressed(SECTION_NAME.as_bytes(), &compression_header(u64::MAX));
    assert_eq!(descriptors_in_object(&data), Err(AssemblyError::InvalidUtf8));
}
