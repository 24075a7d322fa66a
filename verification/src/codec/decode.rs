//! Reading records back into descriptors.

use crate::asset::{
    AssetSource, AssetType, AssetView, CssOptions, FileAsset, FileOptions, FolderAsset,
    ImageOptions, ImageSize, ImageType, JsOptions, SupportError, TailwindAsset, asset_views,
    served_view,
};
use crate::codec::encode::is_control_char;
use crate::codec::grammar::{
    dec_asset, dec_blob, dec_escaped, dec_file, dec_flag, dec_folder, dec_format,
    dec_image, dec_item, dec_number, dec_options, dec_served, dec_size, dec_source,
    dec_string, digit_run, digits_value, enc_blob, hex_value, is_digit, records_len,
};
use crate::codec::inverse::{
    lemma_digit_run_shape, lemma_read_blob, lemma_value_monotonic, lemma_write_blob,
};
use crate::text::chars_of;
use vstd::prelude::*;

verus! {

/// What went wrong while records were read.
#[derive(Clone, Copy, Debug, PartialEq, Eq, Structural)]
pub struct DecodeError {
    /// How many characters were read as whole records before text that is no
    /// record.
    pub offset: usize,
}

/// Whether what was read at `pos` is the reading of the text from `pos` on.
pub open spec fn plain_reading<T>(
    r: Option<(T, usize)>,
    reading: Option<(T, int)>,
    pos: usize,
    len: usize,
) -> bool {
    match r {
        Some((v, end)) => reading == Some((v, end - pos)) && pos < end <= len,
        None => reading is None,
    }
}

/// As [`plain_reading`], for a value that is compared by its view.
pub open spec fn view_reading<T: View>(
    r: Option<(T, usize)>,
    reading: Option<(T::V, int)>,
    pos: usize,
    len: usize,
) -> bool {
    match r {
        Some((v, end)) => reading == Some((v@, end - pos)) && pos < end <= len,
        None => reading is None,
    }
}

/// As [`plain_reading`], for a served location.
pub open spec fn served_reading(
    r: Option<(Result<String, SupportError>, usize)>,
    reading: Option<(Result<Seq<char>, SupportError>, int)>,
    pos: usize,
    len: usize,
) -> bool {
    match r {
        Some((v, end)) => reading == Some((served_view(v), end - pos)) && pos < end <= len,
        None => reading is None,
    }
}

/// What follows `pos + n` is what follows `n` in what follows `pos`.
proof fn lemma_skip_skip(input: Seq<char>, pos: int, n: int)
    requires
        0 <= pos,
        0 <= n,
        pos + n <= input.len(),
    ensures
        input.skip(pos).skip(n) == input.skip(pos + n),
{
    assert(input.skip(pos).skip(n) =~= input.skip(pos + n));
}

fn hex_digit_value(c: char) -> (r: Option<u8>)
    ensures
        match r {
            Some(v) => hex_value(c) == Some(v as int),
            None => hex_value(c) is None,
        },
{
    let code: u32 = c as u32;
    if 48 <= code && code <= 57 {
        Some((code - 48) as u8)
    } else if 97 <= code && code <= 102 {
        Some((code - 87) as u8)
    } else {
        None
    }
}

fn is_digit_char(c: char) -> (out: bool)
    ensures
        out == is_digit(c),
{
    let code: u32 = c as u32;
    48 <= code && code <= 57
}

fn read_flag(input: &Vec<char>, pos: usize) -> (r: Option<(bool, usize)>)
    requires
        pos <= input.len(),
    ensures
        plain_reading(r, dec_flag(input@.skip(pos as int)), pos, input.len()),
{
    if pos < input.len() {
        let c: char = input[pos];
        if c == '1' {
            return Some((true, pos + 1));
        }
        if c == '0' {
            return Some((false, pos + 1));
        }
    }
    None
}

fn read_format(input: &Vec<char>, pos: usize) -> (r: Option<(ImageType, usize)>)
    requires
        pos <= input.len(),
    ensures
        plain_reading(r, dec_format(input@.skip(pos as int)), pos, input.len()),
{
    if pos < input.len() {
        let c: char = input[pos];
        if c == 'p' {
            return Some((ImageType::Png, pos + 1));
        }
        if c == 'j' {
            return Some((ImageType::Jpg, pos + 1));
        }
        if c == 'w' {
            return Some((ImageType::Webp, pos + 1));
        }
        if c == 'a' {
            return Some((ImageType::Avif, pos + 1));
        }
    }
    None
}

fn read_number(input: &Vec<char>, pos: usize) -> (r: Option<(u32, usize)>)
    requires
        pos <= input.len(),
    ensures
        plain_reading(r, dec_number(input@.skip(pos as int)), pos, input.len()),
{
    let ghost tail = input@.skip(pos as int);
    let ghost run = digit_run(tail) as int;
    proof {
        reveal(dec_number);
        lemma_digit_run_shape(tail);
        assert(tail.take(0) =~= Seq::<char>::empty());
    }
    let mut i: usize = pos;
    let mut acc: u64 = 0;
    while i < input.len() && is_digit_char(input[i])
        invariant
            pos <= i <= input.len(),
            tail == input@.skip(pos as int),
            run == digit_run(tail),
            run <= tail.len(),
            forall|k: int| 0 <= k < run ==> is_digit(#[trigger] tail[k]),
            run < tail.len() ==> !is_digit(tail[run]),
            i - pos <= run,
            acc == digits_value(tail.take(i - pos)),
            acc <= u32::MAX,
        decreases input.len() - i,
    {
        let d: u64 = (input[i] as u32 - 48) as u64;
        proof {
            assert(tail[i - pos] == input@[i as int]);
            assert(i - pos < run);
            let next = tail.take(i - pos + 1);
            assert(next.drop_last() =~= tail.take(i - pos));
            assert(next.last() == input@[i as int]);
        }
        acc = acc * 10 + d;
        i += 1;
        if acc > u32::MAX as u64 {
            proof {
                reveal(dec_number);
                let whole = tail.take(run);
                lemma_value_monotonic(whole, i - pos);
                assert(whole.take(i - pos) =~= tail.take(i - pos));
            }
            return None;
        }
    }
    proof {
        assert(i - pos == run) by {
            if i - pos < run {
                assert(is_digit(tail[i - pos]));
                assert(tail[i - pos] == input@[i as int]);
            }
        }
    }
    if i == pos {
        return None;
    }
    if i - pos > 1 && input[pos] == '0' {
        assert(tail[0] == input@[pos as int]);
        return None;
    }
    assert(tail[0] == input@[pos as int]);
    Some((acc as u32, i))
}

/// A reading with `acc` put in front of what was read and `k` added to the
/// number of characters.
spec fn continued(acc: Seq<char>, k: int, reading: Option<(Seq<char>, int)>) -> Option<
    (Seq<char>, int),
> {
    match reading {
        Some((s, n)) => Some((acc + s, k + n)),
        None => None,
    }
}

/// Reads a string in quotes at `pos`: the string and where it ends, or
/// `None` where no string starts at `pos`.
#[verifier::rlimit(40)]
pub fn read_string(input: &Vec<char>, pos: usize) -> (r: Option<(String, usize)>)
    requires
        pos <= input.len(),
    ensures
        view_reading(r, dec_string(input@.skip(pos as int)), pos, input.len()),
{
    proof {
        reveal(dec_string);
    }
    if pos >= input.len() || input[pos] != '"' {
        return None;
    }
    let ghost body = input@.skip(pos as int).skip(1);
    proof {
        lemma_skip_skip(input@, pos as int, 1);
    }
    let len: usize = input.len();
    let mut out = String::new();
    let mut i: usize = pos + 1;
    assert(continued(out@, 0, dec_escaped(input@.skip(i as int))) == dec_escaped(body)) by {
        match dec_escaped(body) {
            Some((s, n)) => {
                assert(out@ + s =~= s);
            },
            None => {},
        }
    }
    loop
        invariant
            pos < i <= len,
            len == input.len(),
            input@[pos as int] == '"',
            body == input@.skip(pos as int).skip(1),
            body == input@.skip(pos + 1),
            dec_escaped(body) == continued(out@, i - (pos + 1), dec_escaped(input@.skip(i as int))),
        decreases len - i,
    {
        let ghost rest = input@.skip(i as int);
        proof {
            reveal(dec_string);
        }
        if i >= len {
            return None;
        }
        let c: char = input[i];
        assert(rest[0] == c);
        if c == '"' {
            assert(out@ + Seq::<char>::empty() =~= out@);
            return Some((out, i + 1));
        }
        let ghost before = out@;
        let step: usize;
        if c == '\\' {
            if len - i >= 2 && (input[i + 1] == '"' || input[i + 1] == '\\') {
                assert(rest[1] == input@[i + 1]);
                out.push(input[i + 1]);
                step = 2;
            } else if len - i >= 3 {
                assert(rest[1] == input@[i + 1]);
                assert(rest[2] == input@[i + 2]);
                let hi = hex_digit_value(input[i + 1]);
                let lo = hex_digit_value(input[i + 2]);
                match (hi, lo) {
                    (Some(hi), Some(lo)) => {
                        let code: u8 = hi * 16 + lo;
                        if code <= 0x1f || (0x7f <= code && code <= 0x9f) {
                            out.push(code as char);
                            step = 3;
                        } else {
                            return None;
                        }
                    },
                    _ => {
                        return None;
                    },
                }
            } else {
                proof {
                    if len - i >= 2 {
                        assert(rest[1] == input@[i + 1]);
                    }
                }
                return None;
            }
        } else if is_control_char(c) {
            return None;
        } else {
            out.push(c);
            step = 1;
        }
        proof {
            let (item, n) = dec_item(rest)->0;
            assert(n == step);
            assert(out@ == before.push(item));
            lemma_skip_skip(input@, i as int, n);
            match dec_escaped(rest.skip(n)) {
                Some((s, m)) => {
                    assert(before + (seq![item] + s) =~= out@ + s);
                },
                None => {},
            }
        }
        i = i + step;
    }
}

fn read_size(input: &Vec<char>, pos: usize) -> (r: Option<(Option<ImageSize>, usize)>)
    requires
        pos <= input.len(),
    ensures
        plain_reading(r, dec_size(input@.skip(pos as int)), pos, input.len()),
{
    let ghost tail = input@.skip(pos as int);
    proof {
        reveal(dec_size);
    }
    if pos >= input.len() {
        return None;
    }
    let c: char = input[pos];
    assert(tail[0] == c);
    if c == '-' {
        return Some((None, pos + 1));
    }
    if c != '[' {
        return None;
    }
    proof {
        lemma_skip_skip(input@, pos as int, 1);
    }
    let (width, end1) = match read_number(input, pos + 1) {
        Some(found) => found,
        None => {
            return None;
        },
    };
    let ghost after = tail.skip(1 + (end1 - pos - 1));
    proof {
        lemma_skip_skip(input@, pos as int, end1 - pos);
        assert(after == input@.skip(end1 as int));
    }
    if end1 >= input.len() || input[end1] != 'x' {
        return None;
    }
    proof {
        lemma_skip_skip(input@, end1 as int, 1);
    }
    let (height, end2) = match read_number(input, end1 + 1) {
        Some(found) => found,
        None => {
            return None;
        },
    };
    proof {
        lemma_skip_skip(input@, end1 as int, end2 - end1);
    }
    if end2 >= input.len() || input[end2] != ']' {
        return None;
    }
    Some((Some(ImageSize { width, height }), end2 + 1))
}

fn read_image(input: &Vec<char>, pos: usize) -> (r: Option<(FileOptions, usize)>)
    requires
        pos <= input.len(),
    ensures
        plain_reading(r, dec_image(input@.skip(pos as int)), pos, input.len()),
{
    proof {
        reveal(dec_image);
    }
    let (ty, end1) = match read_format(input, pos) {
        Some(found) => found,
        None => {
            return None;
        },
    };
    proof {
        lemma_skip_skip(input@, pos as int, end1 - pos);
    }
    let (size, end2) = match read_size(input, end1) {
        Some(found) => found,
        None => {
            return None;
        },
    };
    proof {
        lemma_skip_skip(input@, pos as int, end2 - pos);
    }
    let (preload, end3) = match read_flag(input, end2) {
        Some(found) => found,
        None => {
            return None;
        },
    };
    Some((FileOptions::Image(ImageOptions { ty, size, preload }), end3))
}

fn read_options(input: &Vec<char>, pos: usize) -> (r: Option<(FileOptions, usize)>)
    requires
        pos <= input.len(),
    ensures
        plain_reading(r, dec_options(input@.skip(pos as int)), pos, input.len()),
{
    let ghost tail = input@.skip(pos as int);
    proof {
        reveal(dec_options);
    }
    if pos >= input.len() {
        return None;
    }
    let c: char = input[pos];
    assert(tail[0] == c);
    proof {
        lemma_skip_skip(input@, pos as int, 1);
    }
    if c == 'c' {
        match read_flag(input, pos + 1) {
            Some((preload, end)) => Some((FileOptions::Css(CssOptions { preload }), end)),
            None => None,
        }
    } else if c == 'i' {
        read_image(input, pos + 1)
    } else if c == 'j' {
        let (minify, end1) = match read_flag(input, pos + 1) {
            Some(found) => found,
            None => {
                return None;
            },
        };
        proof {
            lemma_skip_skip(input@, pos + 1, 1);
        }
        match read_flag(input, end1) {
            Some((preload, end)) => Some((FileOptions::Js(JsOptions { minify, preload }), end)),
            None => None,
        }
    } else if c == 'o' {
        Some((FileOptions::Other, pos + 1))
    } else {
        None
    }
}

fn read_source(input: &Vec<char>, pos: usize) -> (r: Option<(AssetSource, usize)>)
    requires
        pos <= input.len(),
    ensures
        view_reading(r, dec_source(input@.skip(pos as int)), pos, input.len()),
{
    let ghost tail = input@.skip(pos as int);
    proof {
        reveal(dec_source);
    }
    if pos >= input.len() {
        return None;
    }
    let c: char = input[pos];
    assert(tail[0] == c);
    proof {
        lemma_skip_skip(input@, pos as int, 1);
    }
    if c == 'L' {
        match read_string(input, pos + 1) {
            Some((path, end)) => Some((AssetSource::Local(path), end)),
            None => None,
        }
    } else if c == 'R' {
        match read_string(input, pos + 1) {
            Some((url, end)) => Some((AssetSource::Remote(url), end)),
            None => None,
        }
    } else {
        None
    }
}

fn read_served(input: &Vec<char>, pos: usize) -> (r: Option<
    (Result<String, SupportError>, usize),
>)
    requires
        pos <= input.len(),
    ensures
        served_reading(r, dec_served(input@.skip(pos as int)), pos, input.len()),
{
    let ghost tail = input@.skip(pos as int);
    proof {
        reveal(dec_served);
    }
    if pos >= input.len() {
        return None;
    }
    let c: char = input[pos];
    assert(tail[0] == c);
    proof {
        lemma_skip_skip(input@, pos as int, 1);
    }
    if c == '=' {
        match read_string(input, pos + 1) {
            Some((location, end)) => Some((Ok(location), end)),
            None => None,
        }
    } else if c == '!' && input.len() - pos >= 2 {
        let tag: char = input[pos + 1];
        assert(tail[1] == tag);
        if tag == 'e' {
            Some((Err(SupportError::ExternalPackageCollection), pos + 2))
        } else if tag == 'm' {
            Some((Err(SupportError::FailedToFindCargoManifest), pos + 2))
        } else {
            None
        }
    } else {
        None
    }
}

fn read_file(input: &Vec<char>, pos: usize) -> (r: Option<(FileAsset, usize)>)
    requires
        pos <= input.len(),
    ensures
        view_reading(r, dec_file(input@.skip(pos as int)), pos, input.len()),
{
    proof {
        reveal(dec_file);
    }
    let (source, end1) = match read_source(input, pos) {
        Some(found) => found,
        None => {
            return None;
        },
    };
    proof {
        lemma_skip_skip(input@, pos as int, end1 - pos);
    }
    let (options, end2) = match read_options(input, end1) {
        Some(found) => found,
        None => {
            return None;
        },
    };
    proof {
        lemma_skip_skip(input@, pos as int, end2 - pos);
    }
    let (served_location, end3) = match read_served(input, end2) {
        Some(found) => found,
        None => {
            return None;
        },
    };
    proof {
        lemma_skip_skip(input@, pos as int, end3 - pos);
    }
    let (url_encoded, end4) = match read_flag(input, end3) {
        Some(found) => found,
        None => {
            return None;
        },
    };
    Some((FileAsset { source, options, served_location, url_encoded }, end4))
}

fn read_folder(input: &Vec<char>, pos: usize) -> (r: Option<(FolderAsset, usize)>)
    requires
        pos <= input.len(),
    ensures
        view_reading(r, dec_folder(input@.skip(pos as int)), pos, input.len()),
{
    proof {
        reveal(dec_folder);
    }
    let (source, end1) = match read_source(input, pos) {
        Some(found) => found,
        None => {
            return None;
        },
    };
    proof {
        lemma_skip_skip(input@, pos as int, end1 - pos);
    }
    match read_served(input, end1) {
        Some((served_location, end)) => Some((FolderAsset { source, served_location }, end)),
        None => None,
    }
}

/// Reads one record at `pos`: the descriptor and where the record ends, or
/// `None` where no record starts at `pos`.
pub fn read_asset(input: &Vec<char>, pos: usize) -> (r: Option<(AssetType, usize)>)
    requires
        pos <= input.len(),
    ensures
        view_reading(r, dec_asset(input@.skip(pos as int)), pos, input.len()),
{
    let ghost tail = input@.skip(pos as int);
    proof {
        reveal(dec_asset);
    }
    if pos >= input.len() {
        return None;
    }
    let c: char = input[pos];
    assert(tail[0] == c);
    proof {
        lemma_skip_skip(input@, pos as int, 1);
    }
    if c == 'F' {
        match read_file(input, pos + 1) {
            Some((file, end)) => Some((AssetType::File(file), end)),
            None => None,
        }
    } else if c == 'D' {
        match read_folder(input, pos + 1) {
            Some((folder, end)) => Some((AssetType::Folder(folder), end)),
            None => None,
        }
    } else if c == 'T' {
        match read_string(input, pos + 1) {
            Some((classes, end)) => Some((AssetType::Tailwind(TailwindAsset { classes }), end)),
            None => None,
        }
    } else {
        None
    }
}

/// A reading of records with `front` put before what was read.
pub open spec fn after_records(front: Seq<AssetView>, reading: Option<Seq<AssetView>>) -> Option<
    Seq<AssetView>,
> {
    match reading {
        Some(rest) => Some(front + rest),
        None => None,
    }
}

/// Reads records from `start` to the end of `input`.
///
/// The error says how many characters after `start` were read as whole
/// records.
pub fn read_blob(input: &Vec<char>, start: usize) -> (r: Result<Vec<AssetType>, DecodeError>)
    requires
        start <= input.len(),
    ensures
        match r {
            Ok(assets) => dec_blob(input@.skip(start as int)) == Some(asset_views(assets@)),
            Err(e) => dec_blob(input@.skip(start as int)) is None && e.offset == records_len(
                input@.skip(start as int),
            ) && e.offset <= input.len() - start,
        },
{
    let ghost tail = input@.skip(start as int);
    let mut out: Vec<AssetType> = Vec::new();
    let mut pos: usize = start;
    proof {
        match dec_blob(tail) {
            Some(rest) => {
                assert(asset_views(out@) + rest =~= rest);
            },
            None => {},
        }
    }
    while pos < input.len()
        invariant
            start <= pos <= input.len(),
            tail == input@.skip(start as int),
            dec_blob(tail) == after_records(asset_views(out@), dec_blob(input@.skip(pos as int))),
            records_len(tail) == (pos - start) + records_len(input@.skip(pos as int)),
        decreases input.len() - pos,
    {
        let ghost here = input@.skip(pos as int);
        match read_asset(input, pos) {
            None => {
                return Err(DecodeError { offset: pos - start });
            },
            Some((asset, next)) => {
                proof {
                    lemma_skip_skip(input@, pos as int, next - pos);
                    let front = asset_views(out@);
                    assert(asset_views(out@.push(asset)) =~= front.push(asset@));
                    match dec_blob(here.skip(next - pos)) {
                        Some(rest) => {
                            assert(front + (seq![asset@] + rest) =~= front.push(asset@) + rest);
                        },
                        None => {},
                    }
                }
                out.push(asset);
                pos = next;
            },
        }
    }
    proof {
        assert(asset_views(out@) + Seq::<AssetView>::empty() =~= asset_views(out@));
    }
    Ok(out)
}

/// Reads a blob of records: the descriptors, in the order of their records.
///
/// The text must be records from its start to its end; an empty text holds
/// no record and gives no descriptor. When some text is no record, nothing
/// is returned but the error, which says how many characters were read as
/// whole records before that text.
pub fn decode_blob(text: &str) -> (r: Result<Vec<AssetType>, DecodeError>)
    ensures
        match r {
            Ok(assets) => dec_blob(text@) == Some(asset_views(assets@)) && text@ == enc_blob(
                asset_views(assets@),
            ),
            Err(e) => dec_blob(text@) is None && e.offset == records_len(text@) && forall|
                m: Seq<AssetView>,
            |
                text@ != #[trigger] enc_blob(m),
        },
{
    let input = chars_of(text);
    assert(input@.skip(0) =~= text@);
    let r = read_blob(&input, 0);
    proof {
        lemma_read_blob(text@);
        if r is Err {
            assert forall|m: Seq<AssetView>| text@ != #[trigger] enc_blob(m) by {
                lemma_write_blob(m);
            }
        }
    }
    r
}

} // verus!
