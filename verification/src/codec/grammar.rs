//! The grammar of records, as functions from values to text, and the reading
//! of text back into values.

use crate::asset::{
    AssetView, CssOptions, FileOptions, FileView, FolderView, ImageOptions, ImageSize, ImageType,
    JsOptions, SourceView, SupportError,
};
use vstd::prelude::*;

verus! {

/// Whether `c` is a control character: U+0000 to U+001F and U+007F to U+009F.
pub open spec fn is_control(c: char) -> bool {
    c as u32 <= 0x1f || 0x7f <= c as u32 <= 0x9f
}

/// Whether `c` is a decimal digit.
pub open spec fn is_digit(c: char) -> bool {
    '0' <= c <= '9'
}

/// The digit that stands for `d`, for `d` below ten.
pub open spec fn digit_char(d: int) -> char {
    (d + 48) as char
}

/// The lower-case hexadecimal digit that stands for `d`, for `d` below sixteen.
pub open spec fn hex_char(d: int) -> char {
    if d < 10 {
        (d + 48) as char
    } else {
        (d + 87) as char
    }
}

/// What a lower-case hexadecimal digit stands for.
pub open spec fn hex_value(c: char) -> Option<int> {
    if '0' <= c <= '9' {
        Some(c as int - 48)
    } else if 'a' <= c <= 'f' {
        Some(c as int - 87)
    } else {
        None
    }
}

/// One character of a string, as it is written between the quotes.
pub open spec fn escape_char(c: char) -> Seq<char> {
    if c == '"' || c == '\\' {
        seq!['\\', c]
    } else if is_control(c) {
        seq!['\\', hex_char(c as int / 16), hex_char(c as int % 16)]
    } else {
        seq![c]
    }
}

/// The characters of a string, as they are written between the quotes.
pub open spec fn escape(s: Seq<char>) -> Seq<char>
    decreases s.len(),
{
    if s.len() == 0 {
        Seq::empty()
    } else {
        escape_char(s[0]) + escape(s.drop_first())
    }
}

pub open spec fn enc_string(s: Seq<char>) -> Seq<char> {
    seq!['"'] + escape(s) + seq!['"']
}

/// The decimal digits of `n`, without leading zeros.
pub open spec fn digits(n: nat) -> Seq<char>
    decreases n,
{
    if n < 10 {
        seq![digit_char(n as int)]
    } else {
        digits(n / 10).push(digit_char((n % 10) as int))
    }
}

pub open spec fn enc_flag(b: bool) -> Seq<char> {
    if b {
        seq!['1']
    } else {
        seq!['0']
    }
}

pub open spec fn enc_format(ty: ImageType) -> Seq<char> {
    match ty {
        ImageType::Png => seq!['p'],
        ImageType::Jpg => seq!['j'],
        ImageType::Webp => seq!['w'],
        ImageType::Avif => seq!['a'],
    }
}

pub open spec fn enc_size(size: Option<ImageSize>) -> Seq<char> {
    match size {
        None => seq!['-'],
        Some(size) => seq!['['] + digits(size.width as nat) + seq!['x'] + digits(
            size.height as nat,
        ) + seq![']'],
    }
}

pub open spec fn enc_options(options: FileOptions) -> Seq<char> {
    match options {
        FileOptions::Css(css) => seq!['c'] + enc_flag(css.preload),
        FileOptions::Image(image) => seq!['i'] + enc_format(image.ty) + enc_size(image.size)
            + enc_flag(image.preload),
        FileOptions::Js(js) => seq!['j'] + enc_flag(js.minify) + enc_flag(js.preload),
        FileOptions::Other => seq!['o'],
    }
}

pub open spec fn enc_source(source: SourceView) -> Seq<char> {
    match source {
        SourceView::Local(path) => seq!['L'] + enc_string(path),
        SourceView::Remote(url) => seq!['R'] + enc_string(url),
    }
}

pub open spec fn enc_served(served: Result<Seq<char>, SupportError>) -> Seq<char> {
    match served {
        Ok(location) => seq!['='] + enc_string(location),
        Err(SupportError::ExternalPackageCollection) => seq!['!', 'e'],
        Err(SupportError::FailedToFindCargoManifest) => seq!['!', 'm'],
    }
}

pub open spec fn enc_file(file: FileView) -> Seq<char> {
    enc_source(file.source) + enc_options(file.options) + enc_served(file.served_location)
        + enc_flag(file.url_encoded)
}

pub open spec fn enc_folder(folder: FolderView) -> Seq<char> {
    enc_source(folder.source) + enc_served(folder.served_location)
}

/// The record of one descriptor.
pub open spec fn enc_asset(asset: AssetView) -> Seq<char> {
    match asset {
        AssetView::File(file) => seq!['F'] + enc_file(file),
        AssetView::Folder(folder) => seq!['D'] + enc_folder(folder),
        AssetView::Tailwind(classes) => seq!['T'] + enc_string(classes),
    }
}

/// The records of `assets`, one after the other.
pub open spec fn enc_blob(assets: Seq<AssetView>) -> Seq<char>
    decreases assets.len(),
{
    if assets.len() == 0 {
        Seq::empty()
    } else {
        enc_asset(assets[0]) + enc_blob(assets.drop_first())
    }
}


// What follows reads text back. A reading is `None` where the text does not
// start with what is asked for; else it is the value and the number of
// characters that were read.

pub open spec fn dec_flag(input: Seq<char>) -> Option<(bool, int)> {
    if input.len() > 0 && input[0] == '1' {
        Some((true, 1))
    } else if input.len() > 0 && input[0] == '0' {
        Some((false, 1))
    } else {
        None
    }
}

pub open spec fn dec_format(input: Seq<char>) -> Option<(ImageType, int)> {
    if input.len() == 0 {
        None
    } else if input[0] == 'p' {
        Some((ImageType::Png, 1))
    } else if input[0] == 'j' {
        Some((ImageType::Jpg, 1))
    } else if input[0] == 'w' {
        Some((ImageType::Webp, 1))
    } else if input[0] == 'a' {
        Some((ImageType::Avif, 1))
    } else {
        None
    }
}

/// How many digits `input` starts with.
pub open spec fn digit_run(input: Seq<char>) -> nat
    decreases input.len(),
{
    if input.len() > 0 && is_digit(input[0]) {
        1 + digit_run(input.drop_first())
    } else {
        0
    }
}

/// The number that the digits `ds` stand for.
pub open spec fn digits_value(ds: Seq<char>) -> nat
    decreases ds.len(),
{
    if ds.len() == 0 {
        0
    } else {
        (digits_value(ds.drop_last()) * 10 + (ds.last() as int - 48)) as nat
    }
}

#[verifier::opaque]
pub open spec fn dec_number(input: Seq<char>) -> Option<(u32, int)> {
    let n = digit_run(input) as int;
    let v = digits_value(input.take(n));
    if n == 0 || (n > 1 && input[0] == '0') || v > u32::MAX {
        None
    } else {
        Some((v as u32, n))
    }
}

/// Whether `code` is the code of a control character.
pub open spec fn is_control_code(code: int) -> bool {
    0 <= code <= 0x1f || 0x7f <= code <= 0x9f
}

/// Reads one character of a string. The text is not empty and does not start
/// with a quote.
pub open spec fn dec_item(input: Seq<char>) -> Option<(char, int)> {
    if input[0] == '\\' {
        if input.len() >= 2 && (input[1] == '"' || input[1] == '\\') {
            Some((input[1], 2))
        } else if input.len() >= 3 && hex_value(input[1]) is Some && hex_value(input[2]) is Some
            && is_control_code(hex_value(input[1])->0 * 16 + hex_value(input[2])->0) {
            Some(((hex_value(input[1])->0 * 16 + hex_value(input[2])->0) as char, 3))
        } else {
            None
        }
    } else if is_control(input[0]) {
        None
    } else {
        Some((input[0], 1))
    }
}

/// Reads the characters of a string up to its closing quote, which is read too.
pub open spec fn dec_escaped(input: Seq<char>) -> Option<(Seq<char>, int)>
    decreases input.len(),
{
    if input.len() == 0 {
        None
    } else if input[0] == '"' {
        Some((Seq::empty(), 1))
    } else {
        match dec_item(input) {
            Some((c, n)) => match dec_escaped(input.skip(n)) {
                Some((s, m)) => Some((seq![c] + s, n + m)),
                None => None,
            },
            None => None,
        }
    }
}

#[verifier::opaque]
pub open spec fn dec_string(input: Seq<char>) -> Option<(Seq<char>, int)> {
    if input.len() > 0 && input[0] == '"' {
        match dec_escaped(input.skip(1)) {
            Some((s, n)) => Some((s, n + 1)),
            None => None,
        }
    } else {
        None
    }
}

#[verifier::opaque]
pub open spec fn dec_size(input: Seq<char>) -> Option<(Option<ImageSize>, int)> {
    if input.len() > 0 && input[0] == '-' {
        Some((None, 1))
    } else if input.len() > 0 && input[0] == '[' {
        match dec_number(input.skip(1)) {
            Some((width, n)) => {
                let after = input.skip(1 + n);
                if after.len() > 0 && after[0] == 'x' {
                    match dec_number(after.skip(1)) {
                        Some((height, m)) => {
                            let end = after.skip(1 + m);
                            if end.len() > 0 && end[0] == ']' {
                                Some((Some(ImageSize { width, height }), n + m + 3))
                            } else {
                                None
                            }
                        },
                        None => None,
                    }
                } else {
                    None
                }
            },
            None => None,
        }
    } else {
        None
    }
}

pub open spec fn dec_css(input: Seq<char>) -> Option<(FileOptions, int)> {
    match dec_flag(input) {
        Some((preload, n)) => Some((FileOptions::Css(CssOptions { preload }), n)),
        None => None,
    }
}

#[verifier::opaque]
pub open spec fn dec_image(input: Seq<char>) -> Option<(FileOptions, int)> {
    match dec_format(input) {
        Some((ty, n1)) => match dec_size(input.skip(n1)) {
            Some((size, n2)) => match dec_flag(input.skip(n1 + n2)) {
                Some((preload, n3)) => Some(
                    (FileOptions::Image(ImageOptions { ty, size, preload }), n1 + n2 + n3),
                ),
                None => None,
            },
            None => None,
        },
        None => None,
    }
}

pub open spec fn dec_js(input: Seq<char>) -> Option<(FileOptions, int)> {
    match dec_flag(input) {
        Some((minify, n1)) => match dec_flag(input.skip(n1)) {
            Some((preload, n2)) => Some((FileOptions::Js(JsOptions { minify, preload }), n1 + n2)),
            None => None,
        },
        None => None,
    }
}

/// Adds `k` to the number of characters that a reading took.
pub open spec fn shift<T>(reading: Option<(T, int)>, k: int) -> Option<(T, int)> {
    match reading {
        Some((v, n)) => Some((v, n + k)),
        None => None,
    }
}

#[verifier::opaque]
pub open spec fn dec_options(input: Seq<char>) -> Option<(FileOptions, int)> {
    if input.len() == 0 {
        None
    } else if input[0] == 'c' {
        shift(dec_css(input.skip(1)), 1)
    } else if input[0] == 'i' {
        shift(dec_image(input.skip(1)), 1)
    } else if input[0] == 'j' {
        shift(dec_js(input.skip(1)), 1)
    } else if input[0] == 'o' {
        Some((FileOptions::Other, 1))
    } else {
        None
    }
}

#[verifier::opaque]
pub open spec fn dec_source(input: Seq<char>) -> Option<(SourceView, int)> {
    if input.len() > 0 && input[0] == 'L' {
        match dec_string(input.skip(1)) {
            Some((path, n)) => Some((SourceView::Local(path), n + 1)),
            None => None,
        }
    } else if input.len() > 0 && input[0] == 'R' {
        match dec_string(input.skip(1)) {
            Some((url, n)) => Some((SourceView::Remote(url), n + 1)),
            None => None,
        }
    } else {
        None
    }
}

#[verifier::opaque]
pub open spec fn dec_served(input: Seq<char>) -> Option<(Result<Seq<char>, SupportError>, int)> {
    if input.len() > 0 && input[0] == '=' {
        match dec_string(input.skip(1)) {
            Some((location, n)) => Some((Ok(location), n + 1)),
            None => None,
        }
    } else if input.len() > 1 && input[0] == '!' && input[1] == 'e' {
        Some((Err(SupportError::ExternalPackageCollection), 2))
    } else if input.len() > 1 && input[0] == '!' && input[1] == 'm' {
        Some((Err(SupportError::FailedToFindCargoManifest), 2))
    } else {
        None
    }
}

#[verifier::opaque]
pub open spec fn dec_file(input: Seq<char>) -> Option<(FileView, int)> {
    match dec_source(input) {
        Some((source, n1)) => match dec_options(input.skip(n1)) {
            Some((options, n2)) => match dec_served(input.skip(n1 + n2)) {
                Some((served_location, n3)) => match dec_flag(input.skip(n1 + n2 + n3)) {
                    Some((url_encoded, n4)) => Some(
                        (
                            FileView { source, options, served_location, url_encoded },
                            n1 + n2 + n3 + n4,
                        ),
                    ),
                    None => None,
                },
                None => None,
            },
            None => None,
        },
        None => None,
    }
}

#[verifier::opaque]
pub open spec fn dec_folder(input: Seq<char>) -> Option<(FolderView, int)> {
    match dec_source(input) {
        Some((source, n1)) => match dec_served(input.skip(n1)) {
            Some((served_location, n2)) => Some((FolderView { source, served_location }, n1 + n2)),
            None => None,
        },
        None => None,
    }
}

/// Reads one record.
#[verifier::opaque]
pub open spec fn dec_asset(input: Seq<char>) -> Option<(AssetView, int)> {
    if input.len() > 0 && input[0] == 'F' {
        match dec_file(input.skip(1)) {
            Some((file, n)) => Some((AssetView::File(file), n + 1)),
            None => None,
        }
    } else if input.len() > 0 && input[0] == 'D' {
        match dec_folder(input.skip(1)) {
            Some((folder, n)) => Some((AssetView::Folder(folder), n + 1)),
            None => None,
        }
    } else if input.len() > 0 && input[0] == 'T' {
        match dec_string(input.skip(1)) {
            Some((classes, n)) => Some((AssetView::Tailwind(classes), n + 1)),
            None => None,
        }
    } else {
        None
    }
}

/// Reads records until nothing is left.
pub open spec fn dec_blob(input: Seq<char>) -> Option<Seq<AssetView>>
    decreases input.len(),
{
    if input.len() == 0 {
        Some(Seq::empty())
    } else {
        match dec_asset(input) {
            Some((asset, n)) => if 0 < n <= input.len() {
                match dec_blob(input.skip(n)) {
                    Some(rest) => Some(seq![asset] + rest),
                    None => None,
                }
            } else {
                None
            },
            None => None,
        }
    }
}

/// How many characters of `input` are read as whole records before text
/// that is no record, or the end.
pub open spec fn records_len(input: Seq<char>) -> int
    decreases input.len(),
{
    if input.len() == 0 {
        0
    } else {
        match dec_asset(input) {
            Some((_, n)) => if 0 < n <= input.len() {
                n + records_len(input.skip(n))
            } else {
                0
            },
            None => 0,
        }
    }
}

/// The text of a package's descriptors: the package's identifier as a
/// string, then the records.
pub open spec fn enc_package(package: Seq<char>, assets: Seq<AssetView>) -> Seq<char> {
    enc_string(package) + enc_blob(assets)
}

/// Reads a package's identifier and its records.
pub open spec fn dec_package(input: Seq<char>) -> Option<(Seq<char>, Seq<AssetView>)> {
    match dec_string(input) {
        Some((package, n)) => match dec_blob(input.skip(n)) {
            Some(assets) => Some((package, assets)),
            None => None,
        },
        None => None,
    }
}

/// As [`records_len`], for the text of a package: nothing where the text
/// does not start with a string.
pub open spec fn package_records_len(input: Seq<char>) -> int {
    match dec_string(input) {
        Some((_, n)) => n + records_len(input.skip(n)),
        None => 0,
    }
}

} // verus!
