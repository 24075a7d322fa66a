//! The binary-scan strategy: descriptors out of compiled artifacts.
//!
//! The compiler leaves the records of a crate's descriptors in a section of
//! a fixed name in the object it writes. An artifact is either such an
//! object or an archive of objects. Reading the containers is left to the
//! `object` crate; what is done with the sections and members it finds is
//! decided here.

use crate::assemble::{AssemblyError, FailurePolicy, Outcome, collect, first_failure, groups_of};
use crate::asset::{AssetType, AssetView, asset_views};
use crate::codec::decode::{DecodeError, decode_blob};
use crate::codec::encode::is_control_char;
use crate::codec::grammar::{dec_blob, enc_blob, is_control, records_len};
use crate::codec::inverse::{lemma_blob_no_control, lemma_write_blob, no_control};
use crate::manifest::AssetManifest;
use crate::package::{PackageAssets, PackageView};
use crate::text::chars_of;
use object::{Object, ObjectSection};
use vstd::prelude::*;
use vstd::slice::slice_subrange;
use vstd::string::StringSliceAdditionalSpecFns;
use vstd::utf8::{
    decode_utf8, encode_utf8, encode_utf8_decode_utf8, encode_utf8_valid_utf8, valid_utf8,
};

verus! {

/// The name of the section that holds the records of the descriptors.
pub const SECTION_NAME: &'static str = "manganis";

/// What kind of container an artifact is.
#[derive(Clone, Copy, Debug, PartialEq, Eq, Structural)]
pub enum ArtifactKind {
    /// A relocatable object.
    Object,
    /// A static archive of objects.
    Archive,
}

/// One section of an object: its name, where the name is UTF-8, and its
/// contents as they stand in the file, where they lie within it. The
/// contents of a compressed section are not decompressed.
#[derive(Debug, PartialEq, Eq)]
pub struct Section {
    pub name: Option<String>,
    pub data: Option<Vec<u8>>,
}

/// The view of a [`Section`].
pub struct SectionView {
    pub name: Option<Seq<char>>,
    pub data: Option<Seq<u8>>,
}

impl View for Section {
    type V = SectionView;

    open spec fn view(&self) -> SectionView {
        SectionView {
            name: match self.name {
                Some(name) => Some(name@),
                None => None,
            },
            data: match self.data {
                Some(data) => Some(data@),
                None => None,
            },
        }
    }
}

/// The views of a list of sections.
pub open spec fn section_views(sections: Seq<Section>) -> Seq<SectionView> {
    sections.map_values(|s: Section| s@)
}

/// One member of an archive: its name and where its contents lie in the
/// archive.
#[derive(Debug, PartialEq, Eq)]
pub struct ArchiveEntry {
    pub name: Vec<u8>,
    pub offset: u64,
    pub size: u64,
}

/// The view of an [`ArchiveEntry`].
pub struct EntryView {
    pub name: Seq<u8>,
    pub offset: u64,
    pub size: u64,
}

impl View for ArchiveEntry {
    type V = EntryView;

    open spec fn view(&self) -> EntryView {
        EntryView { name: self.name@, offset: self.offset, size: self.size }
    }
}

/// The views of a list of archive members.
pub open spec fn entry_views(entries: Seq<ArchiveEntry>) -> Seq<EntryView> {
    entries.map_values(|e: ArchiveEntry| e@)
}

/// The sections that the `object` crate finds in the object `data`, in its
/// order, each with its name and its raw contents; `None` where it does not
/// accept `data` as an object.
pub uninterp spec fn object_sections_of(data: Seq<u8>) -> Option<Seq<SectionView>>;

/// The members that the `object` crate finds in the archive `data`, in its
/// order; `None` where it does not accept `data` as an archive or fails at
/// one of the members.
pub uninterp spec fn archive_members_of(data: Seq<u8>) -> Option<Seq<EntryView>>;

/// `std::str::Utf8Error`, the error of `std::str::from_utf8`.
#[verifier::external_type_specification]
#[verifier::external_body]
pub struct ExUtf8Error(core::str::Utf8Error);

/// `std::str::from_utf8` returns `Ok` exactly where the bytes are valid
/// UTF-8, and the string it returns is made of those bytes.
pub assume_specification[ core::str::from_utf8 ](v: &[u8]) -> (r: Result<
    &str,
    core::str::Utf8Error,
>)
    ensures
        r is Ok <==> valid_utf8(v@),
        r matches Ok(s) ==> s.spec_bytes() == v@,
;

/// Parses `data` with `object::File::parse` and lists what
/// `Object::sections` yields: of each section what `ObjectSection::name`
/// and `ObjectSection::data` return, `None` standing for an error.
/// `ObjectSection::data` hands out the bytes of the section as they stand
/// in the file and decompresses nothing. The result depends on `data` alone
/// and is named [`object_sections_of`]; nothing else is claimed of it.
#[verifier::external_body]
fn object_sections(data: &[u8]) -> (out: Option<Vec<Section>>)
    ensures
        match out {
            Some(sections) => object_sections_of(data@) == Some(section_views(sections@)),
            None => object_sections_of(data@) is None,
        },
{
    let file = object::File::parse(data).ok()?;
    let mut sections = Vec::new();
    for section in file.sections() {
        sections.push(Section {
            name: section.name().ok().map(|name| name.to_string()),
            data: section.data().ok().map(|data| data.to_vec()),
        });
    }
    Some(sections)
}

/// Parses `data` with `object::read::archive::ArchiveFile::parse` and lists
/// what `ArchiveFile::members` yields: of each member what
/// `ArchiveMember::name` and `ArchiveMember::file_range` return. `None`
/// where parsing fails or a member is an error. The result depends on
/// `data` alone and is named [`archive_members_of`]; nothing else is claimed
/// of it.
#[verifier::external_body]
fn archive_members(data: &[u8]) -> (out: Option<Vec<ArchiveEntry>>)
    ensures
        match out {
            Some(entries) => archive_members_of(data@) == Some(entry_views(entries@)),
            None => archive_members_of(data@) is None,
        },
{
    let file = object::read::archive::ArchiveFile::parse(data).ok()?;
    let mut entries = Vec::new();
    for member in file.members() {
        let member = member.ok()?;
        let (offset, size) = member.file_range();
        entries.push(ArchiveEntry { name: member.name().to_vec(), offset, size });
    }
    Some(entries)
}

/// Whether a file of this name is an object: the name ends in `.o` and is
/// longer than that.
pub open spec fn is_object_name(name: Seq<char>) -> bool {
    name.len() > 2 && name[name.len() - 2] == '.' && name[name.len() - 1] == 'o'
}

/// Whether a file of this name is an archive: the name ends in `.rlib` and
/// is longer than that.
pub open spec fn is_archive_name(name: Seq<char>) -> bool {
    name.len() > 5 && name[name.len() - 5] == '.' && name[name.len() - 4] == 'r' && name[name.len()
        - 3] == 'l' && name[name.len() - 2] == 'i' && name[name.len() - 1] == 'b'
}

/// The kind of the artifact in a file of this name, by the name's
/// extension.
pub open spec fn kind_of(name: Seq<char>) -> Option<ArtifactKind> {
    if is_object_name(name) {
        Some(ArtifactKind::Object)
    } else if is_archive_name(name) {
        Some(ArtifactKind::Archive)
    } else {
        None
    }
}

/// The kind of the artifact in a file of this name: an object where the
/// extension is `o`, an archive where it is `rlib`. `None` for any other
/// file: it is not looked at.
pub fn artifact_kind(file_name: &str) -> (out: Option<ArtifactKind>)
    ensures
        out == kind_of(file_name@),
{
    let name = chars_of(file_name);
    let len = name.len();
    if len > 2 && name[len - 2] == '.' && name[len - 1] == 'o' {
        Some(ArtifactKind::Object)
    } else if len > 5 && name[len - 5] == '.' && name[len - 4] == 'r' && name[len - 3] == 'l'
        && name[len - 2] == 'i' && name[len - 1] == 'b' {
        Some(ArtifactKind::Archive)
    } else {
        None
    }
}

/// Whether an archive member of this name is an object: the name ends in
/// `.o`.
pub open spec fn is_object_member(name: Seq<u8>) -> bool {
    name.len() >= 2 && name[name.len() - 2] == 0x2e && name[name.len() - 1] == 0x6f
}

/// Whether an archive member of this name is an object.
pub fn member_is_object(name: &Vec<u8>) -> (out: bool)
    ensures
        out == is_object_member(name@),
{
    let len = name.len();
    len >= 2 && name[len - 2] == 0x2e && name[len - 1] == 0x6f
}

/// `text` without its control characters.
pub open spec fn without_control(text: Seq<char>) -> Seq<char>
    decreases text.len(),
{
    if text.len() == 0 {
        Seq::empty()
    } else if is_control(text.last()) {
        without_control(text.drop_last())
    } else {
        without_control(text.drop_last()).push(text.last())
    }
}

/// `text` without its control characters.
pub fn strip_control(text: &str) -> (out: String)
    ensures
        out@ == without_control(text@),
{
    let mut out = String::new();
    assert(text@.take(0) =~= Seq::<char>::empty());
    for c in it: text.chars()
        invariant
            it.seq() == text@,
            out@ == without_control(text@.take(it.index())),
    {
        proof {
            let next = text@.take(it.index() + 1);
            assert(next.drop_last() =~= text@.take(it.index()));
            assert(next.last() == c);
        }
        if !is_control_char(c) {
            out.push(c);
        }
    }
    assert(text@.take(text@.len() as int) =~= text@);
    out
}

/// The text of a marker section with the contents `bytes`: the contents as
/// UTF-8, without control characters.
pub open spec fn marker_text_of(bytes: Seq<u8>) -> Result<Seq<char>, AssemblyError> {
    if valid_utf8(bytes) {
        Ok(without_control(decode_utf8(bytes)))
    } else {
        Err(AssemblyError::InvalidUtf8)
    }
}

/// The text of a marker section with the contents `bytes`.
///
/// Some platforms put a null byte before the first record; it goes with the
/// other control characters.
pub fn marker_text(bytes: &[u8]) -> (out: Result<String, AssemblyError>)
    ensures
        match out {
            Ok(text) => marker_text_of(bytes@) == Ok::<Seq<char>, AssemblyError>(text@),
            Err(e) => marker_text_of(bytes@) == Err::<Seq<char>, AssemblyError>(e),
        },
{
    match core::str::from_utf8(bytes) {
        Ok(text) => {
            proof {
                encode_utf8_decode_utf8(text@);
            }
            Ok(strip_control(text))
        },
        Err(_) => Err(AssemblyError::InvalidUtf8),
    }
}

/// Whether `section` is a marker section.
pub open spec fn is_marker(section: SectionView) -> bool {
    section.name == Some(SECTION_NAME@)
}

/// The first marker section among `sections`, where there is one.
pub open spec fn first_marker(sections: Seq<SectionView>) -> Option<int>
    decreases sections.len(),
{
    if sections.len() == 0 {
        None
    } else {
        match first_marker(sections.drop_last()) {
            Some(i) => Some(i),
            None => if is_marker(sections.last()) {
                Some(sections.len() - 1)
            } else {
                None
            },
        }
    }
}

/// The descriptors that the records in `text` stand for.
pub open spec fn text_descriptors(text: Seq<char>) -> Result<Seq<AssetView>, AssemblyError> {
    match dec_blob(text) {
        Some(assets) => Ok(assets),
        None => Err(
            AssemblyError::DescriptorDecode(DecodeError { offset: records_len(text) as usize }),
        ),
    }
}

/// The descriptors of an object with the sections `sections`: none where no
/// section has the marker's name; else what the records in the first such
/// section stand for. It is a failure when the contents of that section do
/// not lie within the file, are no UTF-8, or are no records.
pub open spec fn section_descriptors(sections: Seq<SectionView>) -> Result<
    Seq<AssetView>,
    AssemblyError,
> {
    match first_marker(sections) {
        None => Ok(Seq::empty()),
        Some(i) => match sections[i].data {
            None => Err(AssemblyError::ContainerParse),
            Some(bytes) => match marker_text_of(bytes) {
                Err(e) => Err(e),
                Ok(text) => text_descriptors(text),
            },
        },
    }
}

/// Whether `out` is `expected`, descriptors compared by their views.
pub open spec fn gives(
    out: Result<Vec<AssetType>, AssemblyError>,
    expected: Result<Seq<AssetView>, AssemblyError>,
) -> bool {
    match out {
        Ok(assets) => expected == Ok::<Seq<AssetView>, AssemblyError>(asset_views(assets@)),
        Err(e) => expected == Err::<Seq<AssetView>, AssemblyError>(e),
    }
}

/// The index of the first marker section among `sections`.
pub fn find_marker(sections: &Vec<Section>) -> (out: Option<usize>)
    ensures
        match out {
            Some(i) => first_marker(section_views(sections@)) == Some(i as int) && i
                < sections.len(),
            None => first_marker(section_views(sections@)) is None,
        },
{
    let wanted = SECTION_NAME.to_owned();
    let ghost views = section_views(sections@);
    let mut i: usize = 0;
    assert(views.take(0) =~= Seq::<SectionView>::empty());
    while i < sections.len()
        invariant
            i <= sections.len(),
            views == section_views(sections@),
            wanted@ == SECTION_NAME@,
            first_marker(views.take(i as int)) is None,
        decreases sections.len() - i,
    {
        proof {
            let next = views.take(i + 1);
            assert(next.drop_last() =~= views.take(i as int));
            assert(next.last() == sections@[i as int]@);
        }
        let found = match &sections[i].name {
            Some(name) => *name == wanted,
            None => false,
        };
        if found {
            proof {
                lemma_marker_stays(views, i + 1);
            }
            return Some(i);
        }
        i += 1;
    }
    assert(views.take(i as int) =~= views);
    None
}

/// A marker section among the first `k` sections is the first marker section
/// of all.
pub proof fn lemma_marker_stays(sections: Seq<SectionView>, k: int)
    requires
        0 <= k <= sections.len(),
        first_marker(sections.take(k)) is Some,
    ensures
        first_marker(sections) == first_marker(sections.take(k)),
    decreases sections.len() - k,
{
    if k == sections.len() {
        assert(sections.take(k) =~= sections);
    } else {
        assert(sections.drop_last().take(k) =~= sections.take(k));
        lemma_marker_stays(sections.drop_last(), k);
    }
}

/// The descriptors in text that was taken from a marker section.
pub fn descriptors_in_text(text: &str) -> (out: Result<Vec<AssetType>, AssemblyError>)
    ensures
        gives(out, text_descriptors(text@)),
{
    match decode_blob(text) {
        Ok(assets) => Ok(assets),
        Err(e) => Err(AssemblyError::DescriptorDecode(e)),
    }
}

/// The descriptors of an object whose sections are `sections`.
pub fn descriptors_in_sections(sections: &Vec<Section>) -> (out: Result<
    Vec<AssetType>,
    AssemblyError,
>)
    ensures
        gives(out, section_descriptors(section_views(sections@))),
{
    match find_marker(sections) {
        None => {
            let assets: Vec<AssetType> = Vec::new();
            assert(asset_views(assets@) =~= Seq::<AssetView>::empty());
            Ok(assets)
        },
        Some(i) => match &sections[i].data {
            None => Err(AssemblyError::ContainerParse),
            Some(bytes) => match marker_text(bytes.as_slice()) {
                Err(e) => Err(e),
                Ok(text) => descriptors_in_text(text.as_str()),
            },
        },
    }
}

/// The descriptors of the object `data`: a failure where `data` is no
/// object, else the descriptors of its sections.
pub open spec fn object_descriptors(data: Seq<u8>) -> Result<Seq<AssetView>, AssemblyError> {
    match object_sections_of(data) {
        None => Err(AssemblyError::ContainerParse),
        Some(sections) => section_descriptors(sections),
    }
}

/// The descriptors that are embedded in the object `data`.
///
/// An object without a marker section has none, which is no failure.
pub fn descriptors_in_object(data: &[u8]) -> (out: Result<Vec<AssetType>, AssemblyError>)
    ensures
        gives(out, object_descriptors(data@)),
{
    match object_sections(data) {
        None => Err(AssemblyError::ContainerParse),
        Some(sections) => descriptors_in_sections(&sections),
    }
}

/// The contents of a member of the archive `data`: `None` where the member
/// does not lie within the archive.
pub open spec fn member_bytes(data: Seq<u8>, entry: EntryView) -> Option<Seq<u8>> {
    if entry.offset <= data.len() && entry.size <= data.len() - entry.offset {
        Some(data.subrange(entry.offset as int, entry.offset + entry.size))
    } else {
        None
    }
}

/// The contents of a member of the archive `data`.
pub fn member_data<'a>(data: &'a [u8], entry: &ArchiveEntry) -> (out: Option<&'a [u8]>)
    ensures
        match out {
            Some(bytes) => member_bytes(data@, entry@) == Some(bytes@),
            None => member_bytes(data@, entry@) is None,
        },
{
    let len = data.len();
    if entry.offset > len as u64 {
        return None;
    }
    let offset = entry.offset as usize;
    if entry.size > (len - offset) as u64 {
        return None;
    }
    let size = entry.size as usize;
    Some(slice_subrange(data, offset, offset + size))
}

/// The descriptors of one member of the archive `data`: none where the
/// member is no object by its name; a failure where it does not lie within
/// the archive; else the descriptors of the object it holds.
pub open spec fn member_descriptors(data: Seq<u8>, entry: EntryView) -> Result<
    Seq<AssetView>,
    AssemblyError,
> {
    if !is_object_member(entry.name) {
        Ok(Seq::empty())
    } else {
        match member_bytes(data, entry) {
            None => Err(AssemblyError::ContainerParse),
            Some(bytes) => object_descriptors(bytes),
        }
    }
}

/// The descriptors of the members `entries` of the archive `data`, member
/// after member; the first failure, where a member fails.
pub open spec fn members_descriptors(data: Seq<u8>, entries: Seq<EntryView>) -> Result<
    Seq<AssetView>,
    AssemblyError,
>
    decreases entries.len(),
{
    if entries.len() == 0 {
        Ok(Seq::empty())
    } else {
        match members_descriptors(data, entries.drop_last()) {
            Err(e) => Err(e),
            Ok(front) => match member_descriptors(data, entries.last()) {
                Err(e) => Err(e),
                Ok(more) => Ok(front + more),
            },
        }
    }
}

/// A failure among the first `k` members is the failure of all.
pub proof fn lemma_member_failure_stays(data: Seq<u8>, entries: Seq<EntryView>, k: int)
    requires
        0 <= k <= entries.len(),
        members_descriptors(data, entries.take(k)) is Err,
    ensures
        members_descriptors(data, entries) == members_descriptors(data, entries.take(k)),
    decreases entries.len() - k,
{
    if k == entries.len() {
        assert(entries.take(k) =~= entries);
    } else {
        assert(entries.drop_last().take(k) =~= entries.take(k));
        lemma_member_failure_stays(data, entries.drop_last(), k);
    }
}

/// The descriptors of one member of the archive `data`.
pub fn descriptors_in_member(data: &[u8], entry: &ArchiveEntry) -> (out: Result<
    Vec<AssetType>,
    AssemblyError,
>)
    ensures
        gives(out, member_descriptors(data@, entry@)),
{
    if !member_is_object(&entry.name) {
        let assets: Vec<AssetType> = Vec::new();
        assert(asset_views(assets@) =~= Seq::<AssetView>::empty());
        return Ok(assets);
    }
    match member_data(data, entry) {
        None => Err(AssemblyError::ContainerParse),
        Some(bytes) => descriptors_in_object(bytes),
    }
}

/// The descriptors of the members `entries` of the archive `data`.
pub fn descriptors_in_members(data: &[u8], entries: &Vec<ArchiveEntry>) -> (out: Result<
    Vec<AssetType>,
    AssemblyError,
>)
    ensures
        gives(out, members_descriptors(data@, entry_views(entries@))),
{
    let ghost views = entry_views(entries@);
    let mut all: Vec<AssetType> = Vec::new();
    let mut i: usize = 0;
    assert(views.take(0) =~= Seq::<EntryView>::empty());
    assert(asset_views(all@) =~= Seq::<AssetView>::empty());
    while i < entries.len()
        invariant
            i <= entries.len(),
            views == entry_views(entries@),
            members_descriptors(data@, views.take(i as int)) == Ok::<
                Seq<AssetView>,
                AssemblyError,
            >(asset_views(all@)),
        decreases entries.len() - i,
    {
        proof {
            let next = views.take(i + 1);
            assert(next.drop_last() =~= views.take(i as int));
            assert(next.last() == entries@[i as int]@);
        }
        match descriptors_in_member(data, &entries[i]) {
            Err(e) => {
                proof {
                    lemma_member_failure_stays(data@, views, i + 1);
                }
                return Err(e);
            },
            Ok(mut more) => {
                let ghost front = all@;
                let ghost added = more@;
                all.append(&mut more);
                assert(asset_views(all@) =~= asset_views(front) + asset_views(added));
            },
        }
        i += 1;
    }
    assert(views.take(i as int) =~= views);
    Ok(all)
}

/// The descriptors of the archive `data`: a failure where `data` is no
/// archive, else the descriptors of its members.
pub open spec fn archive_descriptors(data: Seq<u8>) -> Result<Seq<AssetView>, AssemblyError> {
    match archive_members_of(data) {
        None => Err(AssemblyError::ContainerParse),
        Some(entries) => members_descriptors(data, entries),
    }
}

/// The descriptors that are embedded in the objects of the archive `data`.
pub fn descriptors_in_archive(data: &[u8]) -> (out: Result<Vec<AssetType>, AssemblyError>)
    ensures
        gives(out, archive_descriptors(data@)),
{
    match archive_members(data) {
        None => Err(AssemblyError::ContainerParse),
        Some(entries) => descriptors_in_members(data, &entries),
    }
}

/// The descriptors of an artifact of the given kind.
pub open spec fn artifact_descriptors(kind: ArtifactKind, data: Seq<u8>) -> Result<
    Seq<AssetView>,
    AssemblyError,
> {
    match kind {
        ArtifactKind::Object => object_descriptors(data),
        ArtifactKind::Archive => archive_descriptors(data),
    }
}

/// The views of a list of groups.
pub open spec fn group_views(groups: Seq<PackageAssets>) -> Seq<PackageView> {
    groups.map_values(|g: PackageAssets| g@)
}

/// What a source gave, with the group by its view.
pub open spec fn outcome_view(outcome: Outcome) -> Result<Option<PackageView>, AssemblyError> {
    match outcome {
        Ok(Some(group)) => Ok(Some(group@)),
        Ok(None) => Ok(None),
        Err(e) => Err(e),
    }
}

/// What an artifact of the given kind gives to the manifest: its
/// descriptors as one group under the name `name`; nothing where it has no
/// descriptors; its failure where it fails.
pub open spec fn artifact_group(name: Seq<char>, kind: ArtifactKind, data: Seq<u8>) -> Result<
    Option<PackageView>,
    AssemblyError,
> {
    match artifact_descriptors(kind, data) {
        Err(e) => Err(e),
        Ok(assets) => if assets.len() == 0 {
            Ok(None)
        } else {
            Ok(Some(PackageView { package: name, assets }))
        },
    }
}

/// What the artifact `data` of the given kind gives to the manifest.
pub fn scan_artifact(name: &str, kind: ArtifactKind, data: &[u8]) -> (out: Outcome)
    ensures
        outcome_view(out) == artifact_group(name@, kind, data@),
{
    let found = match kind {
        ArtifactKind::Object => descriptors_in_object(data),
        ArtifactKind::Archive => descriptors_in_archive(data),
    };
    match found {
        Err(e) => Err(e),
        Ok(assets) => {
            if assets.len() == 0 {
                Ok(None)
            } else {
                Ok(Some(PackageAssets::new(name.to_owned(), assets)))
            }
        },
    }
}

/// A file of a build: its name, without directories, and its contents.
#[derive(Debug, PartialEq, Eq)]
pub struct Artifact {
    pub file_name: String,
    pub data: Vec<u8>,
}

/// What the file `file` gives to the manifest: nothing where it is neither
/// object nor archive by its name, else what the artifact in it gives.
pub open spec fn file_group(file: Artifact) -> Result<Option<PackageView>, AssemblyError> {
    match kind_of(file.file_name@) {
        None => Ok(None),
        Some(kind) => artifact_group(file.file_name@, kind, file.data@),
    }
}

/// The groups that the files `files` give to the manifest, in the order of
/// the files; the first failure, where a file fails.
pub open spec fn scan_groups(files: Seq<Artifact>) -> Result<Seq<PackageView>, AssemblyError>
    decreases files.len(),
{
    if files.len() == 0 {
        Ok(Seq::empty())
    } else {
        match scan_groups(files.drop_last()) {
            Err(e) => Err(e),
            Ok(front) => match file_group(files.last()) {
                Err(e) => Err(e),
                Ok(None) => Ok(front),
                Ok(Some(group)) => Ok(front.push(group)),
            },
        }
    }
}

/// A failure among the first `k` files is the failure of all.
pub proof fn lemma_scan_failure_stays(files: Seq<Artifact>, k: int)
    requires
        0 <= k <= files.len(),
        scan_groups(files.take(k)) is Err,
    ensures
        scan_groups(files) == scan_groups(files.take(k)),
    decreases files.len() - k,
{
    if k == files.len() {
        assert(files.take(k) =~= files);
    } else {
        assert(files.drop_last().take(k) =~= files.take(k));
        lemma_scan_failure_stays(files.drop_last(), k);
    }
}

/// What the outcomes of files hold is what the files give, group for group
/// and failure for failure.
pub proof fn lemma_outcomes_of_files(files: Seq<Artifact>, outcomes: Seq<Outcome>)
    requires
        outcomes.len() == files.len(),
        forall|k: int|
            0 <= k < files.len() ==> outcome_view(#[trigger] outcomes[k]) == file_group(files[k]),
    ensures
        match scan_groups(files) {
            Err(e) => first_failure(outcomes) == Some(e),
            Ok(groups) => first_failure(outcomes) is None && group_views(groups_of(outcomes))
                == groups,
        },
    decreases files.len(),
{
    if files.len() == 0 {
        assert(group_views(groups_of(outcomes)) =~= Seq::<PackageView>::empty());
    } else {
        let front = outcomes.drop_last();
        assert forall|k: int| 0 <= k < files.drop_last().len() implies outcome_view(
            #[trigger] front[k],
        ) == file_group(files.drop_last()[k]) by {
            assert(front[k] == outcomes[k]);
        }
        lemma_outcomes_of_files(files.drop_last(), front);
        assert(outcome_view(outcomes[outcomes.len() - 1]) == file_group(files[files.len() - 1]));
        match outcomes.last() {
            Ok(Some(group)) => {
                assert(group_views(groups_of(outcomes)) =~= group_views(groups_of(front)).push(
                    group@,
                ));
            },
            _ => {},
        }
    }
}

/// Scans the files of a build and collects the descriptors that are
/// embedded in them.
///
/// A file that is neither object nor archive by its name is not looked at.
/// Each artifact that holds descriptors becomes one group of the manifest,
/// under the file's name, in the order of `files`; where no artifact holds
/// any, the manifest is empty. The first artifact that fails ends the scan
/// with its failure.
pub fn scan(files: &Vec<Artifact>) -> (out: Result<AssetManifest, AssemblyError>)
    ensures
        match out {
            Ok(manifest) => scan_groups(files@) == Ok::<Seq<PackageView>, AssemblyError>(
                group_views(manifest.spec_packages()),
            ),
            Err(e) => scan_groups(files@) == Err::<Seq<PackageView>, AssemblyError>(e),
        },
{
    let mut outcomes: Vec<Outcome> = Vec::new();
    let mut i: usize = 0;
    while i < files.len()
        invariant_except_break
            first_failure(outcomes@) is None,
        invariant
            i <= files.len(),
            outcomes@.len() == i,
            forall|k: int|
                0 <= k < i ==> outcome_view(#[trigger] outcomes@[k]) == file_group(files@[k]),
        ensures
            i == files.len() || first_failure(outcomes@) is Some,
        decreases files.len() - i,
    {
        let file = &files[i];
        let outcome = match artifact_kind(file.file_name.as_str()) {
            None => Ok(None),
            Some(kind) => scan_artifact(file.file_name.as_str(), kind, file.data.as_slice()),
        };
        let failed = outcome.is_err();
        let ghost before = outcomes@;
        outcomes.push(outcome);
        assert(outcomes@.drop_last() =~= before);
        i += 1;
        if failed {
            break;
        }
    }
    proof {
        let seen = files@.take(i as int);
        assert forall|k: int| 0 <= k < seen.len() implies outcome_view(
            #[trigger] outcomes@[k],
        ) == file_group(seen[k]) by {}
        lemma_outcomes_of_files(seen, outcomes@);
        if i < files.len() {
            lemma_scan_failure_stays(files@, i as int);
        } else {
            assert(seen =~= files@);
        }
    }
    collect(outcomes, FailurePolicy::FailFast)
}

/// Text without control characters is left as it is.
pub proof fn lemma_nothing_to_strip(text: Seq<char>)
    requires
        no_control(text),
    ensures
        without_control(text) == text,
    decreases text.len(),
{
    if text.len() > 0 {
        assert(!is_control(text[text.len() - 1]));
        assert(no_control(text.drop_last())) by {
            assert forall|i: int| 0 <= i < text.drop_last().len() implies !is_control(
                #[trigger] text.drop_last()[i],
            ) by {
                assert(text.drop_last()[i] == text[i]);
            }
        }
        lemma_nothing_to_strip(text.drop_last());
        assert(text.drop_last().push(text.last()) =~= text);
    }
}

/// Control characters before a text are taken away with the others.
pub proof fn lemma_strip_after(before: Seq<char>, text: Seq<char>)
    requires
        forall|i: int| 0 <= i < before.len() ==> is_control(#[trigger] before[i]),
    ensures
        without_control(before + text) == without_control(text),
    decreases text.len(),
{
    if text.len() == 0 {
        assert(before + text =~= before);
        lemma_all_stripped(before);
    } else {
        assert((before + text).drop_last() =~= before + text.drop_last());
        assert((before + text).last() == text.last());
        lemma_strip_after(before, text.drop_last());
    }
}

/// Of control characters alone nothing is left.
pub proof fn lemma_all_stripped(text: Seq<char>)
    requires
        forall|i: int| 0 <= i < text.len() ==> is_control(#[trigger] text[i]),
    ensures
        without_control(text) == Seq::<char>::empty(),
    decreases text.len(),
{
    if text.len() > 0 {
        assert(is_control(text[text.len() - 1]));
        assert forall|i: int| 0 <= i < text.drop_last().len() implies is_control(
            #[trigger] text.drop_last()[i],
        ) by {
            assert(text.drop_last()[i] == text[i]);
        }
        lemma_all_stripped(text.drop_last());
    }
}

/// A marker section that holds the records of `assets` in UTF-8, after any
/// control characters, gives `assets` back.
pub proof fn lemma_marker_round_trip(before: Seq<char>, assets: Seq<AssetView>)
    requires
        forall|i: int| 0 <= i < before.len() ==> is_control(#[trigger] before[i]),
    ensures
        marker_text_of(encode_utf8(before + enc_blob(assets))) == Ok::<
            Seq<char>,
            AssemblyError,
        >(enc_blob(assets)),
        text_descriptors(enc_blob(assets)) == Ok::<Seq<AssetView>, AssemblyError>(assets),
{
    let text = before + enc_blob(assets);
    encode_utf8_valid_utf8(text);
    encode_utf8_decode_utf8(text);
    lemma_strip_after(before, enc_blob(assets));
    lemma_blob_no_control(assets);
    lemma_nothing_to_strip(enc_blob(assets));
    lemma_write_blob(assets);
}

/// An object none of whose sections has the marker's name has no
/// descriptors, and that is no failure.
pub proof fn lemma_no_marker(sections: Seq<SectionView>)
    requires
        forall|i: int| 0 <= i < sections.len() ==> !is_marker(#[trigger] sections[i]),
    ensures
        first_marker(sections) is None,
        section_descriptors(sections) == Ok::<Seq<AssetView>, AssemblyError>(Seq::empty()),
    decreases sections.len(),
{
    if sections.len() > 0 {
        assert(!is_marker(sections[sections.len() - 1]));
        assert forall|i: int| 0 <= i < sections.drop_last().len() implies !is_marker(
            #[trigger] sections.drop_last()[i],
        ) by {
            assert(sections.drop_last()[i] == sections[i]);
        }
        lemma_no_marker(sections.drop_last());
    }
}

} // verus!
