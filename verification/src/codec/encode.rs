//! Writing descriptors as records.

use crate::asset::{
    AssetSource, AssetType, AssetView, FileAsset, FileOptions, FolderAsset, ImageSize, ImageType,
    SupportError, asset_views, served_view,
};
use crate::codec::grammar::{
    digits, enc_asset, enc_blob, enc_file, enc_flag, enc_folder, enc_format,
    enc_options, enc_served, enc_size, enc_source, enc_string, escape, escape_char, hex_char,
    is_control,
};
use crate::codec::inverse::lemma_blob_concat;
use vstd::prelude::*;

verus! {

/// Whether `c` is a control character.
pub fn is_control_char(c: char) -> (out: bool)
    ensures
        out == is_control(c),
{
    let code: u32 = c as u32;
    code <= 0x1f || (0x7f <= code && code <= 0x9f)
}

fn hex_digit(n: u8) -> (c: char)
    requires
        n < 16,
    ensures
        c == hex_char(n as int),
{
    if n < 10 {
        (48 + n) as char
    } else {
        (87 + n) as char
    }
}

/// Writing a string with one more character writes that character last.
proof fn lemma_escape_push(s: Seq<char>, c: char)
    ensures
        escape(s.push(c)) == escape(s) + escape_char(c),
    decreases s.len(),
{
    if s.len() == 0 {
        assert(s.push(c).drop_first() =~= Seq::<char>::empty());
        assert(escape(Seq::<char>::empty()) =~= Seq::<char>::empty());
        assert(escape(s.push(c)) =~= escape(s) + escape_char(c));
    } else {
        lemma_escape_push(s.drop_first(), c);
        assert(s.push(c).drop_first() =~= s.drop_first().push(c));
        assert(escape(s.push(c)) =~= escape(s) + escape_char(c));
    }
}

fn write_char(out: &mut String, c: char)
    ensures
        final(out)@ == old(out)@ + escape_char(c),
{
    let ghost before = out@;
    if c == '"' || c == '\\' {
        out.push('\\');
        out.push(c);
    } else if is_control_char(c) {
        let code: u8 = c as u8;
        out.push('\\');
        out.push(hex_digit(code / 16));
        out.push(hex_digit(code % 16));
    } else {
        out.push(c);
    }
    assert(out@ =~= before + escape_char(c));
}

/// Appends `s` to `out` as a string in quotes.
pub fn write_string(out: &mut String, s: &str)
    ensures
        final(out)@ == old(out)@ + enc_string(s@),
{
    let ghost before = out@;
    out.push('"');
    for c in it: s.chars()
        invariant
            it.seq() == s@,
            out@ == before + seq!['"'] + escape(s@.take(it.index())),
    {
        proof {
            lemma_escape_push(s@.take(it.index()), c);
            assert(s@.take(it.index() + 1) =~= s@.take(it.index()).push(c));
        }
        write_char(out, c);
        assert(out@ =~= before + seq!['"'] + escape(s@.take(it.index() + 1)));
    }
    assert(s@.take(s@.len() as int) =~= s@);
    out.push('"');
    assert(out@ =~= before + enc_string(s@));
}

/// Appends the decimal digits of `v` to `out`.
pub fn write_number(out: &mut String, v: u32)
    ensures
        final(out)@ == old(out)@ + digits(v as nat),
    decreases v,
{
    let ghost before = out@;
    if v >= 10 {
        write_number(out, v / 10);
    }
    let d: u8 = (v % 10) as u8;
    out.push((48 + d) as char);
    assert(out@ =~= before + digits(v as nat));
}

fn write_flag(out: &mut String, b: bool)
    ensures
        final(out)@ == old(out)@ + enc_flag(b),
{
    let ghost before = out@;
    if b {
        out.push('1');
    } else {
        out.push('0');
    }
    assert(out@ =~= before + enc_flag(b));
}

fn write_format(out: &mut String, ty: ImageType)
    ensures
        final(out)@ == old(out)@ + enc_format(ty),
{
    let ghost before = out@;
    match ty {
        ImageType::Png => out.push('p'),
        ImageType::Jpg => out.push('j'),
        ImageType::Webp => out.push('w'),
        ImageType::Avif => out.push('a'),
    }
    assert(out@ =~= before + enc_format(ty));
}

fn write_size(out: &mut String, size: Option<ImageSize>)
    ensures
        final(out)@ == old(out)@ + enc_size(size),
{
    let ghost before = out@;
    match size {
        None => {
            out.push('-');
        },
        Some(size) => {
            out.push('[');
            write_number(out, size.width);
            out.push('x');
            write_number(out, size.height);
            out.push(']');
        },
    }
    assert(out@ =~= before + enc_size(size));
}

fn write_options(out: &mut String, options: FileOptions)
    ensures
        final(out)@ == old(out)@ + enc_options(options),
{
    let ghost before = out@;
    match options {
        FileOptions::Css(css) => {
            out.push('c');
            write_flag(out, css.preload);
        },
        FileOptions::Image(image) => {
            out.push('i');
            write_format(out, image.ty);
            write_size(out, image.size);
            write_flag(out, image.preload);
        },
        FileOptions::Js(js) => {
            out.push('j');
            write_flag(out, js.minify);
            write_flag(out, js.preload);
        },
        FileOptions::Other => {
            out.push('o');
        },
    }
    assert(out@ =~= before + enc_options(options));
}

fn write_source(out: &mut String, source: &AssetSource)
    ensures
        final(out)@ == old(out)@ + enc_source(source@),
{
    let ghost before = out@;
    match source {
        AssetSource::Local(path) => {
            out.push('L');
            write_string(out, path.as_str());
        },
        AssetSource::Remote(url) => {
            out.push('R');
            write_string(out, url.as_str());
        },
    }
    assert(out@ =~= before + enc_source(source@));
}

fn write_served(out: &mut String, served: &Result<String, SupportError>)
    ensures
        final(out)@ == old(out)@ + enc_served(served_view(*served)),
{
    let ghost before = out@;
    match served {
        Ok(location) => {
            out.push('=');
            write_string(out, location.as_str());
        },
        Err(SupportError::ExternalPackageCollection) => {
            out.push('!');
            out.push('e');
        },
        Err(SupportError::FailedToFindCargoManifest) => {
            out.push('!');
            out.push('m');
        },
    }
    assert(out@ =~= before + enc_served(served_view(*served)));
}

fn write_file(out: &mut String, file: &FileAsset)
    ensures
        final(out)@ == old(out)@ + enc_file(file@),
{
    let ghost before = out@;
    write_source(out, &file.source);
    write_options(out, file.options);
    write_served(out, &file.served_location);
    write_flag(out, file.url_encoded);
    assert(out@ =~= before + enc_file(file@));
}

fn write_folder(out: &mut String, folder: &FolderAsset)
    ensures
        final(out)@ == old(out)@ + enc_folder(folder@),
{
    let ghost before = out@;
    write_source(out, &folder.source);
    write_served(out, &folder.served_location);
    assert(out@ =~= before + enc_folder(folder@));
}

/// Appends the record of `asset` to `out`.
pub fn write_asset(out: &mut String, asset: &AssetType)
    ensures
        final(out)@ == old(out)@ + enc_asset(asset@),
{
    let ghost before = out@;
    match asset {
        AssetType::File(file) => {
            out.push('F');
            write_file(out, file);
        },
        AssetType::Folder(folder) => {
            out.push('D');
            write_folder(out, folder);
        },
        AssetType::Tailwind(tailwind) => {
            out.push('T');
            write_string(out, tailwind.classes.as_str());
        },
    }
    assert(out@ =~= before + enc_asset(asset@));
}

/// The record of one descriptor.
pub fn encode_asset(asset: &AssetType) -> (out: String)
    ensures
        out@ == enc_asset(asset@),
{
    let mut out = String::new();
    write_asset(&mut out, asset);
    assert(out@ =~= enc_asset(asset@));
    out
}

/// The records of a list of descriptors with one more descriptor are those
/// of the list, then that of the descriptor.
proof fn lemma_blob_push(assets: Seq<AssetType>, asset: AssetType)
    ensures
        enc_blob(asset_views(assets.push(asset))) == enc_blob(asset_views(assets)) + enc_asset(
            asset@,
        ),
{
    lemma_blob_concat(asset_views(assets), seq![asset@]);
    assert(asset_views(assets.push(asset)) =~= asset_views(assets) + seq![asset@]);
    assert(seq![asset@].drop_first() =~= Seq::<AssetView>::empty());
    assert(enc_blob(Seq::<AssetView>::empty()) =~= Seq::<char>::empty());
    assert(enc_blob(seq![asset@]) =~= enc_asset(asset@));
}

/// Appends the records of `assets` to `out`, in order.
pub fn write_blob(out: &mut String, assets: &Vec<AssetType>)
    ensures
        final(out)@ == old(out)@ + enc_blob(asset_views(assets@)),
{
    let ghost before = out@;
    let mut i: usize = 0;
    assert(asset_views(assets@.take(0)) =~= Seq::empty());
    assert(out@ =~= before + enc_blob(asset_views(assets@.take(0))));
    while i < assets.len()
        invariant
            i <= assets.len(),
            out@ == before + enc_blob(asset_views(assets@.take(i as int))),
        decreases assets.len() - i,
    {
        proof {
            lemma_blob_push(assets@.take(i as int), assets@[i as int]);
            assert(assets@.take(i + 1) =~= assets@.take(i as int).push(assets@[i as int]));
        }
        write_asset(out, &assets[i]);
        i += 1;
        assert(out@ =~= before + enc_blob(asset_views(assets@.take(i as int))));
    }
    assert(assets@.take(i as int) =~= assets@);
}

/// The records of `assets`, one after the other with nothing between them.
pub fn encode_blob(assets: &Vec<AssetType>) -> (out: String)
    ensures
        out@ == enc_blob(asset_views(assets@)),
{
    let mut out = String::new();
    write_blob(&mut out, assets);
    assert(out@ =~= enc_blob(asset_views(assets@)));
    out
}

} // verus!
