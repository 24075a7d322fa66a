//! The layout of the asset cache.
//!
//! The cache is one directory with a subdirectory per package, named by the
//! package's identifier. A package's descriptors are kept in one file of a
//! fixed name inside its subdirectory.

use vstd::prelude::*;
use vstd::string::StringExecFns;

verus! {

/// The name of the cache directory inside the tool's home directory.
pub const CACHE_DIR_NAME: &'static str = "assets";

/// The name of the file that holds a package's descriptors. The file holds
/// what [`crate::package::PackageAssets::encode`] writes: the name stands
/// for where the entry lies, not for how it is written.
pub const CACHE_FILE_NAME: &'static str = "assets.toml";

/// The name of the configuration file inside the cache directory.
pub const CONFIG_FILE_NAME: &'static str = "config.toml";

/// The view of an optional string.
pub open spec fn opt_view(s: Option<&str>) -> Option<Seq<char>> {
    match s {
        Some(s) => Some(s@),
        None => None,
    }
}

/// The identifier of a package: its name and version with a hyphen between
/// them, and the name of the binary, where there is one, between the two.
pub open spec fn identifier(package: Seq<char>, bin: Option<Seq<char>>, version: Seq<char>) -> Seq<
    char,
> {
    match bin {
        Some(bin) => package + seq!['-'] + bin + seq!['-'] + version,
        None => package + seq!['-'] + version,
    }
}

/// Whether `c` is a separator of paths on some platform: a slash or a
/// backslash.
pub open spec fn is_main_separator(c: char) -> bool {
    c == '/' || c == '\\'
}

/// `std::path::MAIN_SEPARATOR`, the character that separates the components
/// of a path on this platform: a slash on Unix, a backslash on Windows.
/// Which of the two it is, is not claimed.
#[verifier::external_body]
fn main_separator() -> (c: char)
    ensures
        is_main_separator(c),
{
    std::path::MAIN_SEPARATOR
}

/// Appends the identifier of a package to `out`.
fn push_identifier(out: &mut String, package: &str, bin: Option<&str>, version: &str)
    ensures
        final(out)@ == old(out)@ + identifier(package@, opt_view(bin), version@),
{
    let ghost before = out@;
    out.append(package);
    if let Some(bin) = bin {
        out.push('-');
        out.append(bin);
    }
    out.push('-');
    out.append(version);
    assert(out@ =~= before + identifier(package@, opt_view(bin), version@));
}

/// The identifier for a package used to cache assets.
pub fn package_identifier(package: &str, bin: Option<&str>, version: &str) -> (out: String)
    ensures
        out@ == identifier(package@, opt_view(bin), version@),
{
    let mut out = String::new();
    push_identifier(&mut out, package, bin, version);
    assert(out@ =~= identifier(package@, opt_view(bin), version@));
    out
}

/// Appends `separator` and the identifier of a package to the path `dir`.
pub fn push_identifier_path(
    dir: &mut String,
    separator: char,
    package: &str,
    bin: Option<&str>,
    version: &str,
)
    ensures
        final(dir)@ == old(dir)@ + seq![separator] + identifier(
            package@,
            opt_view(bin),
            version@,
        ),
{
    dir.push(separator);
    push_identifier(dir, package, bin, version);
}

/// Like [`package_identifier`], but appends the identifier to the given
/// path, after the platform's path separator.
pub fn push_package_cache_dir(package: &str, bin: Option<&str>, version: &str, dir: &mut String)
    ensures
        exists|separator: char|
            is_main_separator(separator) && final(dir)@ == old(dir)@ + seq![separator]
                + identifier(package@, opt_view(bin), version@),
{
    let separator = main_separator();
    push_identifier_path(dir, separator, package, bin, version);
}

/// The path of `name` inside the directory `dir`: `dir`, the separator
/// unless `dir` is empty or ends with it, and `name`.
pub open spec fn path_in(dir: Seq<char>, separator: char, name: Seq<char>) -> Seq<char> {
    if dir.len() == 0 || dir.last() == separator {
        dir + name
    } else {
        dir + seq![separator] + name
    }
}

/// The path of `name` inside the directory `dir`.
pub fn child_path(dir: &str, separator: char, name: &str) -> (out: String)
    ensures
        out@ == path_in(dir@, separator, name@),
{
    let mut out = String::new();
    let mut ends_with_separator = true;
    for c in it: dir.chars()
        invariant
            it.seq() == dir@,
            out@ == dir@.take(it.index()),
            ends_with_separator == (it.index() == 0 || dir@[it.index() - 1] == separator),
    {
        out.push(c);
        ends_with_separator = c == separator;
        assert(out@ =~= dir@.take(it.index() + 1));
    }
    assert(dir@.take(dir@.len() as int) =~= dir@);
    if !ends_with_separator {
        out.push(separator);
    }
    out.append(name);
    assert(out@ =~= path_in(dir@, separator, name@));
    out
}

/// The path of the file that holds the descriptors of the package whose
/// identifier is `package_id`, in the cache directory `cache_dir`.
pub fn cache_file_path(cache_dir: &str, separator: char, package_id: &str) -> (out: String)
    ensures
        out@ == path_in(
            path_in(cache_dir@, separator, package_id@),
            separator,
            CACHE_FILE_NAME@,
        ),
{
    let dir = child_path(cache_dir, separator, package_id);
    child_path(dir.as_str(), separator, CACHE_FILE_NAME)
}

/// `home::cargo_home`, the directory that Cargo keeps its files in, as the
/// environment of this process gives it; `None` where it cannot be found
/// out or is no UTF-8. Nothing is claimed of the directory.
#[verifier::external_body]
fn cargo_home() -> (out: Option<String>) {
    home::cargo_home().ok().and_then(|dir| dir.into_os_string().into_string().ok())
}

/// The view of an optional owned string.
pub open spec fn owned_view(s: Option<String>) -> Option<Seq<char>> {
    match s {
        Some(s) => Some(s@),
        None => None,
    }
}

/// The cache directory for the home directory `home` of Cargo: the
/// directory of the name [`CACHE_DIR_NAME`] inside it; none where there is
/// no home directory.
pub open spec fn cache_dir_of(home: Option<Seq<char>>, separator: char) -> Option<Seq<char>> {
    match home {
        Some(home) => Some(path_in(home, separator, CACHE_DIR_NAME@)),
        None => None,
    }
}

/// The configuration file for the home directory `home` of Cargo: the file
/// of the name [`CONFIG_FILE_NAME`] inside the cache directory.
pub open spec fn config_path_of(home: Option<Seq<char>>, separator: char) -> Option<Seq<char>> {
    match cache_dir_of(home, separator) {
        Some(dir) => Some(path_in(dir, separator, CONFIG_FILE_NAME@)),
        None => None,
    }
}

/// The cache directory of the package of the identifier `id` for the home
/// directory `home` of Cargo: the directory of the name `id` inside the
/// cache directory.
pub open spec fn package_cache_dir_of(
    home: Option<Seq<char>>,
    separator: char,
    id: Seq<char>,
) -> Option<Seq<char>> {
    match cache_dir_of(home, separator) {
        Some(dir) => Some(path_in(dir, separator, id)),
        None => None,
    }
}

/// The location where assets are cached, for the home directory `home` of
/// Cargo and the separator of paths `separator`.
pub fn cache_dir_in(home: Option<&str>, separator: char) -> (out: Option<String>)
    ensures
        owned_view(out) == cache_dir_of(opt_view(home), separator),
{
    match home {
        Some(home) => Some(child_path(home, separator, CACHE_DIR_NAME)),
        None => None,
    }
}

/// The location of the configuration file, for the home directory `home`
/// of Cargo and the separator of paths `separator`.
pub fn config_path_in(home: Option<&str>, separator: char) -> (out: Option<String>)
    ensures
        owned_view(out) == config_path_of(opt_view(home), separator),
{
    match cache_dir_in(home, separator) {
        Some(dir) => Some(child_path(dir.as_str(), separator, CONFIG_FILE_NAME)),
        None => None,
    }
}

/// The location where the assets of the package `context` are cached, for
/// the home directory `home` of Cargo and the separator of paths
/// `separator`.
pub fn package_cache_dir_in(home: Option<&str>, separator: char, context: &PackageContext) -> (out:
    Option<String>)
    ensures
        owned_view(out) == package_cache_dir_of(
            opt_view(home),
            separator,
            context.spec_identifier(),
        ),
{
    match cache_dir_in(home, separator) {
        Some(dir) => {
            let id = context.identifier();
            Some(child_path(dir.as_str(), separator, id.as_str()))
        },
        None => None,
    }
}

/// The home directory of Cargo as a string slice.
fn borrowed(home: &Option<String>) -> (out: Option<&str>)
    ensures
        opt_view(out) == owned_view(*home),
{
    match home {
        Some(home) => Some(home.as_str()),
        None => None,
    }
}

/// The location where assets are cached: the directory of the name
/// [`CACHE_DIR_NAME`] inside Cargo's home directory. `None` where that home
/// directory cannot be found out.
///
/// The result is that of [`cache_dir_in`] for the home directory and the
/// separator that this process finds.
pub fn asset_cache_dir() -> (out: Option<String>)
    ensures
        exists|home: Option<Seq<char>>, separator: char|
            is_main_separator(separator) && owned_view(out) == #[trigger] cache_dir_of(
                home,
                separator,
            ),
{
    let home = cargo_home();
    let separator = main_separator();
    let out = cache_dir_in(borrowed(&home), separator);
    assert(owned_view(out) == cache_dir_of(owned_view(home), separator));
    out
}

/// The location of the configuration file: the file of the name
/// [`CONFIG_FILE_NAME`] inside the cache directory. `None` where Cargo's
/// home directory cannot be found out.
///
/// The result is that of [`config_path_in`] for the home directory and the
/// separator that this process finds.
pub fn config_path() -> (out: Option<String>)
    ensures
        exists|home: Option<Seq<char>>, separator: char|
            is_main_separator(separator) && owned_view(out) == #[trigger] config_path_of(
                home,
                separator,
            ),
{
    let home = cargo_home();
    let separator = main_separator();
    let out = config_path_in(borrowed(&home), separator);
    assert(owned_view(out) == config_path_of(owned_view(home), separator));
    out
}

/// The location where the assets of the package `context` are cached: the
/// directory of the package's identifier inside the cache directory. `None`
/// where Cargo's home directory cannot be found out.
///
/// The result is that of [`package_cache_dir_in`] for the home directory
/// and the separator that this process finds.
pub fn package_cache_dir(context: &PackageContext) -> (out: Option<String>)
    ensures
        exists|home: Option<Seq<char>>, separator: char|
            is_main_separator(separator) && owned_view(out) == #[trigger] package_cache_dir_of(
                home,
                separator,
                context.spec_identifier(),
            ),
{
    let home = cargo_home();
    let separator = main_separator();
    let out = package_cache_dir_in(borrowed(&home), separator, context);
    assert(owned_view(out) == package_cache_dir_of(
        owned_view(home),
        separator,
        context.spec_identifier(),
    ));
    out
}

/// The package that is being built, as the build tool describes it.
#[derive(Debug, PartialEq, Eq)]
pub struct PackageContext {
    pub name: String,
    /// The binary that was selected, where one was.
    pub bin: Option<String>,
    pub version: String,
}

impl PackageContext {
    /// The identifier of this package.
    pub open spec fn spec_identifier(&self) -> Seq<char> {
        identifier(
            self.name@,
            match self.bin {
                Some(bin) => Some(bin@),
                None => None,
            },
            self.version@,
        )
    }

    /// The identifier of this package.
    pub fn identifier(&self) -> (out: String)
        ensures
            out@ == self.spec_identifier(),
    {
        match &self.bin {
            Some(bin) => package_identifier(
                self.name.as_str(),
                Some(bin.as_str()),
                self.version.as_str(),
            ),
            None => package_identifier(self.name.as_str(), None, self.version.as_str()),
        }
    }
}

} // verus!
