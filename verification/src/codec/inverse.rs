//! Reading is the inverse of writing: what was written is read back as it
//! was, and what is read is what would be written.

use crate::asset::{
    AssetView, FileOptions, FileView, FolderView, ImageOptions, ImageSize, JsOptions, SourceView,
    SupportError,
};
use crate::codec::grammar::{
    dec_asset, dec_blob, dec_escaped, dec_file, dec_flag, dec_folder, dec_format,
    dec_image, dec_item, dec_js, dec_number, dec_options, dec_package, dec_served, dec_size,
    dec_source, dec_string, digit_run, digits, digits_value, enc_asset, enc_blob, enc_file, enc_flag,
    enc_folder, enc_format, enc_options, enc_package, enc_served, enc_size, enc_source, enc_string, escape,
    escape_char, hex_char, hex_value, is_control, is_digit,
};
use vstd::prelude::*;

verus! {

/// Taking `n + m` elements is taking `n`, then `m` of what follows.
proof fn lemma_take_split(input: Seq<char>, n: int, m: int)
    requires
        0 <= n,
        0 <= m,
        n + m <= input.len(),
    ensures
        input.take(n + m) == input.take(n) + input.skip(n).take(m),
        input.skip(n).skip(m) == input.skip(n + m),
{
    assert(input.take(n + m) =~= input.take(n) + input.skip(n).take(m));
    assert(input.skip(n).skip(m) =~= input.skip(n + m));
}

/// What follows a prefix is found by skipping it.
proof fn lemma_prefix(a: Seq<char>, b: Seq<char>)
    ensures
        (a + b).skip(a.len() as int) == b,
        (a + b).take(a.len() as int) == a,
{
    assert((a + b).skip(a.len() as int) =~= b);
    assert((a + b).take(a.len() as int) =~= a);
}

/// Concatenation may be grouped from the right.
proof fn lemma_regroup(a: Seq<char>, b: Seq<char>, c: Seq<char>, d: Seq<char>, r: Seq<char>)
    ensures
        a + b + c + d + r == a + (b + c + d + r),
        b + c + d + r == b + (c + d + r),
        c + d + r == c + (d + r),
        a + b + r == a + (b + r),
{
    assert(a + b + c + d + r =~= a + (b + c + d + r));
    assert(b + c + d + r =~= b + (c + d + r));
    assert(c + d + r =~= c + (d + r));
    assert(a + b + r =~= a + (b + r));
}

// Numbers

proof fn lemma_digits_shape(n: nat)
    ensures
        digits(n).len() >= 1,
        forall|i: int| 0 <= i < digits(n).len() ==> is_digit(#[trigger] digits(n)[i]),
        n >= 10 ==> digits(n).len() > 1 && digits(n)[0] != '0',
        n < 10 ==> digits(n).len() == 1,
        0 < n < 10 ==> digits(n)[0] != '0',
    decreases n,
{
    if n >= 10 {
        lemma_digits_shape(n / 10);
    }
}

proof fn lemma_digits_value(n: nat)
    ensures
        digits_value(digits(n)) == n,
    decreases n,
{
    if n < 10 {
        assert(digits(n).drop_last() =~= Seq::<char>::empty());
        assert(digits_value(Seq::<char>::empty()) == 0);
    } else {
        lemma_digits_value(n / 10);
        assert(digits(n).drop_last() =~= digits(n / 10));
    }
}

/// A run of digits that is followed by no digit is read whole.
proof fn lemma_digit_run(ds: Seq<char>, rest: Seq<char>)
    requires
        forall|i: int| 0 <= i < ds.len() ==> is_digit(#[trigger] ds[i]),
        rest.len() == 0 || !is_digit(rest[0]),
    ensures
        digit_run(ds + rest) == ds.len(),
    decreases ds.len(),
{
    if ds.len() == 0 {
        assert(ds + rest =~= rest);
    } else {
        lemma_digit_run(ds.drop_first(), rest);
        assert((ds + rest).drop_first() =~= ds.drop_first() + rest);
    }
}

/// The run of digits at the start of a text lies within it and holds digits
/// only, and what follows it starts with no digit.
pub(crate) proof fn lemma_digit_run_shape(input: Seq<char>)
    ensures
        digit_run(input) <= input.len(),
        forall|i: int| 0 <= i < digit_run(input) ==> is_digit(#[trigger] input[i]),
        digit_run(input) < input.len() ==> !is_digit(input[digit_run(input) as int]),
    decreases input.len(),
{
    if input.len() > 0 && is_digit(input[0]) {
        lemma_digit_run_shape(input.drop_first());
        assert forall|i: int| 0 <= i < digit_run(input) implies is_digit(#[trigger] input[i]) by {
            if i > 0 {
                assert(input[i] == input.drop_first()[i - 1]);
            }
        }
        if digit_run(input) < input.len() {
            assert(input[digit_run(input) as int] == input.drop_first()[digit_run(
                input.drop_first(),
            ) as int]);
        }
    }
}

/// Digits that do not start with a zero stand for a number above zero.
proof fn lemma_value_positive(ds: Seq<char>)
    requires
        ds.len() >= 1,
        forall|i: int| 0 <= i < ds.len() ==> is_digit(#[trigger] ds[i]),
        ds[0] != '0',
    ensures
        digits_value(ds) >= 1,
    decreases ds.len(),
{
    if ds.len() == 1 {
        assert(ds.drop_last() =~= Seq::<char>::empty());
        assert(digits_value(ds.drop_last()) == 0);
        assert(is_digit(ds[0]));
    } else {
        lemma_value_positive(ds.drop_last());
        assert(is_digit(ds[ds.len() - 1]));
    }
}

/// Digits without a leading zero are the digits of the number they stand for.
proof fn lemma_value_digits(ds: Seq<char>)
    requires
        ds.len() >= 1,
        forall|i: int| 0 <= i < ds.len() ==> is_digit(#[trigger] ds[i]),
        ds.len() > 1 ==> ds[0] != '0',
    ensures
        digits(digits_value(ds)) == ds,
    decreases ds.len(),
{
    let d = ds.last();
    assert(is_digit(ds[ds.len() - 1]));
    if ds.len() == 1 {
        assert(ds.drop_last() =~= Seq::<char>::empty());
        assert(digits_value(ds.drop_last()) == 0);
        assert(digits(digits_value(ds)) =~= ds);
    } else {
        let front = ds.drop_last();
        lemma_value_positive(front);
        lemma_value_digits(front);
        let v = digits_value(ds);
        assert(v == digits_value(front) * 10 + (d as int - 48));
        assert(v / 10 == digits_value(front));
        assert(v % 10 == d as int - 48);
        assert(digits(v) =~= ds);
    }
}

/// A longer run of digits stands for a number that is no smaller.
pub(crate) proof fn lemma_value_monotonic(ds: Seq<char>, k: int)
    requires
        0 <= k <= ds.len(),
        forall|i: int| 0 <= i < ds.len() ==> is_digit(#[trigger] ds[i]),
    ensures
        digits_value(ds.take(k)) <= digits_value(ds),
    decreases ds.len() - k,
{
    if k == ds.len() {
        assert(ds.take(k) =~= ds);
    } else {
        lemma_value_monotonic(ds.drop_last(), k);
        assert(ds.drop_last().take(k) =~= ds.take(k));
        assert(is_digit(ds[ds.len() - 1]));
    }
}

proof fn lemma_write_number(v: u32, rest: Seq<char>)
    requires
        rest.len() == 0 || !is_digit(rest[0]),
    ensures
        dec_number(digits(v as nat) + rest) == Some((v, digits(v as nat).len() as int)),
{
    reveal(dec_number);
    let ds = digits(v as nat);
    lemma_digits_shape(v as nat);
    lemma_digits_value(v as nat);
    lemma_digit_run(ds, rest);
    lemma_prefix(ds, rest);
}

proof fn lemma_read_number(input: Seq<char>)
    ensures
        dec_number(input) matches Some((v, n)) ==> 0 < n <= input.len() && input.take(n) == digits(
            v as nat,
        ) && (n < input.len() ==> !is_digit(input[n])),
{
    reveal(dec_number);
    lemma_digit_run_shape(input);
    if dec_number(input) is Some {
        let n = digit_run(input) as int;
        lemma_value_digits(input.take(n));
    }
}


// Strings

proof fn lemma_write_item(c: char, rest: Seq<char>)
    ensures
        (escape_char(c) + rest)[0] != '"',
        dec_item(escape_char(c) + rest) == Some((c, escape_char(c).len() as int)),
{
    let input = escape_char(c) + rest;
    if c == '"' || c == '\\' {
        assert(input[0] == '\\' && input[1] == c);
    } else if is_control(c) {
        let hi = c as int / 16;
        let lo = c as int % 16;
        assert(input[0] == '\\');
        assert(input[1] == hex_char(hi));
        assert(input[2] == hex_char(lo));
        assert(hex_value(hex_char(hi)) == Some(hi));
        assert(hex_value(hex_char(lo)) == Some(lo));
        assert(hi * 16 + lo == c as int);
    } else {
        assert(input[0] == c);
    }
}

proof fn lemma_read_item(input: Seq<char>)
    requires
        input.len() > 0,
        input[0] != '"',
    ensures
        dec_item(input) matches Some((c, n)) ==> 0 < n <= input.len() && input.take(n)
            == escape_char(c),
{
    if let Some((c, n)) = dec_item(input) {
        if input[0] == '\\' {
            if input.len() >= 2 && (input[1] == '"' || input[1] == '\\') {
                assert(input.take(n) =~= escape_char(c));
            } else {
                let hi = hex_value(input[1])->0;
                let lo = hex_value(input[2])->0;
                assert(c as int == hi * 16 + lo);
                assert(is_control(c));
                assert(c as int / 16 == hi);
                assert(c as int % 16 == lo);
                assert(hex_char(hi) == input[1]);
                assert(hex_char(lo) == input[2]);
                assert(input.take(n) =~= escape_char(c));
            }
        } else {
            assert(input.take(n) =~= escape_char(c));
        }
    }
}

proof fn lemma_write_escaped(s: Seq<char>, rest: Seq<char>)
    ensures
        dec_escaped(escape(s) + seq!['"'] + rest) == Some((s, (escape(s).len() + 1) as int)),
    decreases s.len(),
{
    let input = escape(s) + seq!['"'] + rest;
    if s.len() == 0 {
        assert(input[0] == '"');
    } else {
        let head = escape_char(s[0]);
        let tail = escape(s.drop_first()) + seq!['"'] + rest;
        assert(input =~= head + tail);
        lemma_write_item(s[0], tail);
        lemma_prefix(head, tail);
        lemma_write_escaped(s.drop_first(), rest);
        assert(seq![s[0]] + s.drop_first() =~= s);
    }
}

proof fn lemma_read_escaped(input: Seq<char>)
    ensures
        dec_escaped(input) matches Some((s, n)) ==> 0 < n <= input.len() && input.take(n) == escape(
            s,
        ) + seq!['"'],
    decreases input.len(),
{
    if let Some((s, n)) = dec_escaped(input) {
        if input[0] == '"' {
            assert(input.take(1) =~= escape(s) + seq!['"']);
        } else {
            lemma_read_item(input);
            let (c, k) = dec_item(input)->0;
            lemma_read_escaped(input.skip(k));
            let (t, m) = dec_escaped(input.skip(k))->0;
            lemma_take_split(input, k, m);
            assert(s == seq![c] + t);
            assert(s[0] == c);
            assert(s.drop_first() =~= t);
            assert(escape(s) == escape_char(c) + escape(t));
            assert(input.take(n) =~= escape(s) + seq!['"']);
        }
    }
}

proof fn lemma_write_string(s: Seq<char>, rest: Seq<char>)
    ensures
        dec_string(enc_string(s) + rest) == Some((s, enc_string(s).len() as int)),
{
    reveal(dec_string);
    let input = enc_string(s) + rest;
    let tail = escape(s) + seq!['"'] + rest;
    assert(input =~= seq!['"'] + tail);
    assert(input.skip(1) =~= tail);
    lemma_write_escaped(s, rest);
}

proof fn lemma_read_string(input: Seq<char>)
    ensures
        dec_string(input) matches Some((s, n)) ==> 0 < n <= input.len() && input.take(n)
            == enc_string(s),
{
    reveal(dec_string);
    if let Some((s, n)) = dec_string(input) {
        lemma_read_escaped(input.skip(1));
        lemma_take_split(input, 1, n - 1);
        assert(input.take(1) =~= seq!['"']);
        assert(input.take(n) =~= enc_string(s));
    }
}


// Options

#[verifier::rlimit(40)]
proof fn lemma_write_size(size: Option<ImageSize>, rest: Seq<char>)
    ensures
        dec_size(enc_size(size) + rest) == Some((size, enc_size(size).len() as int)),
{
    reveal(dec_size);
    match size {
        None => {
            assert((enc_size(size) + rest)[0] == '-');
        },
        Some(ImageSize { width, height }) => {
            let open = seq!['['];
            let by = seq!['x'];
            let close = seq![']'];
            let w = digits(width as nat);
            let h = digits(height as nat);
            let input = open + w + by + h + close + rest;
            let r3 = close + rest;
            let r2 = h + r3;
            let r1 = by + r2;
            let r0 = w + r1;
            lemma_regroup(open, w, by, h, r3);
            lemma_regroup(open, w, by, h + close, rest);
            assert(open + w + by + h + close + rest =~= open + w + by + h + r3);
            assert(input == open + r0);
            assert(input[0] == open[0]);
            lemma_prefix(open, r0);
            assert(r1[0] == by[0]);
            lemma_write_number(width, r1);
            lemma_prefix(w, r1);
            lemma_take_split(input, 1, w.len() as int);
            lemma_prefix(by, r2);
            assert(r3[0] == close[0]);
            lemma_write_number(height, r3);
            lemma_prefix(h, r3);
            lemma_take_split(r1, 1, h.len() as int);
        },
    }
}

#[verifier::rlimit(40)]
proof fn lemma_read_size(input: Seq<char>)
    ensures
        dec_size(input) matches Some((size, n)) ==> 0 < n <= input.len() && input.take(n)
            == enc_size(size),
{
    reveal(dec_size);
    if let Some((size, n)) = dec_size(input) {
        if input[0] == '-' {
            assert(input.take(n) =~= enc_size(size));
        } else {
            lemma_read_number(input.skip(1));
            let (width, k) = dec_number(input.skip(1))->0;
            let after = input.skip(1 + k);
            lemma_read_number(after.skip(1));
            let (height, m) = dec_number(after.skip(1))->0;
            let w = digits(width as nat);
            let h = digits(height as nat);
            assert(input.skip(1).take(k) == w);
            assert(after.skip(1).take(m) == h);
            assert(input.take(n) =~= seq!['['] + w + seq!['x'] + h + seq![']']) by {
                assert forall|i: int| 0 <= i < n implies input.take(n)[i] == (seq!['['] + w
                    + seq!['x'] + h + seq![']'])[i] by {
                    if 1 <= i < 1 + k {
                        assert(input[i] == input.skip(1).take(k)[i - 1]);
                    } else if i == 1 + k {
                        assert(input[i] == after[0]);
                    } else if 2 + k <= i < 2 + k + m {
                        assert(input[i] == after.skip(1).take(m)[i - 2 - k]);
                    } else if i == 2 + k + m {
                        assert(input[i] == after.skip(1 + m)[0]);
                    }
                }
            }
        }
    }
}

proof fn lemma_write_flag(b: bool, rest: Seq<char>)
    ensures
        dec_flag(enc_flag(b) + rest) == Some((b, 1int)),
        enc_flag(b).len() == 1,
        (enc_flag(b) + rest).skip(1) == rest,
{
    assert((enc_flag(b) + rest)[0] == enc_flag(b)[0]);
    assert((enc_flag(b) + rest).skip(1) =~= rest);
}

#[verifier::rlimit(40)]
proof fn lemma_write_image(image: ImageOptions, rest: Seq<char>)
    ensures
        dec_image(enc_format(image.ty) + enc_size(image.size) + enc_flag(image.preload) + rest)
            == Some(
            (
                FileOptions::Image(image),
                (enc_format(image.ty) + enc_size(image.size) + enc_flag(image.preload)).len() as int,
            ),
        ),
{
    reveal(dec_image);
    let e1 = enc_format(image.ty);
    let e2 = enc_size(image.size);
    let e3 = enc_flag(image.preload);
    let input = e1 + e2 + e3 + rest;
    lemma_regroup(e1, e2, e3, Seq::empty(), rest);
    assert(e3 + Seq::<char>::empty() =~= e3);
    assert(e1 + e2 + e3 + Seq::<char>::empty() =~= e1 + e2 + e3);
    let r1 = e2 + e3 + rest;
    let r2 = e3 + rest;
    assert(input =~= e1 + r1);
    assert(r1 =~= e2 + r2);
    assert(e1.len() == 1);
    assert(input[0] == e1[0]);
    assert(dec_format(input) == Some((image.ty, 1int)));
    lemma_prefix(e1, r1);
    lemma_write_size(image.size, r2);
    lemma_prefix(e2, r2);
    lemma_take_split(input, 1, e2.len() as int);
    lemma_write_flag(image.preload, rest);
}

proof fn lemma_write_js(js: JsOptions, rest: Seq<char>)
    ensures
        dec_js(enc_flag(js.minify) + enc_flag(js.preload) + rest) == Some(
            (FileOptions::Js(js), 2int),
        ),
{
    let r1 = enc_flag(js.preload) + rest;
    assert(enc_flag(js.minify) + enc_flag(js.preload) + rest =~= enc_flag(js.minify) + r1);
    lemma_write_flag(js.minify, r1);
    lemma_write_flag(js.preload, rest);
}

#[verifier::rlimit(40)]
proof fn lemma_write_options(options: FileOptions, rest: Seq<char>)
    ensures
        dec_options(enc_options(options) + rest) == Some(
            (options, enc_options(options).len() as int),
        ),
{
    reveal(dec_options);
    let input = enc_options(options) + rest;
    match options {
        FileOptions::Css(css) => {
            let body = enc_flag(css.preload) + rest;
            assert(input =~= seq!['c'] + body);
            lemma_prefix(seq!['c'], body);
            lemma_write_flag(css.preload, rest);
        },
        FileOptions::Image(image) => {
            let body = enc_format(image.ty) + enc_size(image.size) + enc_flag(image.preload)
                + rest;
            assert(input =~= seq!['i'] + body);
            lemma_prefix(seq!['i'], body);
            lemma_write_image(image, rest);
        },
        FileOptions::Js(js) => {
            let body = enc_flag(js.minify) + enc_flag(js.preload) + rest;
            assert(input =~= seq!['j'] + body);
            lemma_prefix(seq!['j'], body);
            lemma_write_js(js, rest);
        },
        FileOptions::Other => {
            assert(input[0] == 'o');
        },
    }
}

#[verifier::rlimit(40)]
proof fn lemma_read_options(input: Seq<char>)
    ensures
        dec_options(input) matches Some((options, n)) ==> 0 < n <= input.len() && input.take(n)
            == enc_options(options),
{
    reveal(dec_options);
    reveal(dec_image);
    if let Some((options, n)) = dec_options(input) {
        let body = input.skip(1);
        if input[0] == 'c' {
            assert(input.take(n) =~= enc_options(options));
        } else if input[0] == 'i' {
            let (ty, n1) = dec_format(body)->0;
            lemma_read_size(body.skip(n1));
            let (size, n2) = dec_size(body.skip(n1))->0;
            let (preload, n3) = dec_flag(body.skip(n1 + n2))->0;
            assert(body.skip(1).take(n2) == enc_size(size));
            assert(input.take(n) =~= seq!['i'] + enc_format(ty) + enc_size(size) + enc_flag(
                preload,
            )) by {
                assert forall|i: int| 0 <= i < n implies input.take(n)[i] == (seq!['i']
                    + enc_format(ty) + enc_size(size) + enc_flag(preload))[i] by {
                    if i == 1 {
                        assert(input[i] == body[0]);
                    } else if 2 <= i < 2 + n2 {
                        assert(input[i] == body.skip(1).take(n2)[i - 2]);
                    } else if i == 2 + n2 {
                        assert(input[i] == body.skip(n1 + n2)[0]);
                    }
                }
            }
        } else if input[0] == 'j' {
            assert(input[1] == body[0]);
            assert(input[2] == body.skip(1)[0]);
            assert(input.take(n) =~= enc_options(options));
        } else {
            assert(input.take(n) =~= enc_options(options));
        }
    }
}

// Sources and served locations

proof fn lemma_write_source(source: SourceView, rest: Seq<char>)
    ensures
        dec_source(enc_source(source) + rest) == Some((source, enc_source(source).len() as int)),
{
    reveal(dec_source);
    let input = enc_source(source) + rest;
    match source {
        SourceView::Local(path) => {
            assert(input[0] == 'L');
            assert(input.skip(1) =~= enc_string(path) + rest);
            lemma_write_string(path, rest);
        },
        SourceView::Remote(url) => {
            assert(input[0] == 'R');
            assert(input.skip(1) =~= enc_string(url) + rest);
            lemma_write_string(url, rest);
        },
    }
}

proof fn lemma_read_source(input: Seq<char>)
    ensures
        dec_source(input) matches Some((source, n)) ==> 0 < n <= input.len() && input.take(n)
            == enc_source(source),
{
    reveal(dec_source);
    if let Some((source, n)) = dec_source(input) {
        lemma_read_string(input.skip(1));
        lemma_take_split(input, 1, n - 1);
        assert(input.take(1) =~= seq![input[0]]);
    }
}

proof fn lemma_write_served(served: Result<Seq<char>, SupportError>, rest: Seq<char>)
    ensures
        dec_served(enc_served(served) + rest) == Some((served, enc_served(served).len() as int)),
{
    reveal(dec_served);
    let input = enc_served(served) + rest;
    match served {
        Ok(location) => {
            assert(input[0] == '=');
            assert(input.skip(1) =~= enc_string(location) + rest);
            lemma_write_string(location, rest);
        },
        Err(SupportError::ExternalPackageCollection) => {
            assert(input[0] == '!' && input[1] == 'e');
        },
        Err(SupportError::FailedToFindCargoManifest) => {
            assert(input[0] == '!' && input[1] == 'm');
        },
    }
}

proof fn lemma_read_served(input: Seq<char>)
    ensures
        dec_served(input) matches Some((served, n)) ==> 0 < n <= input.len() && input.take(n)
            == enc_served(served),
{
    reveal(dec_served);
    if let Some((served, n)) = dec_served(input) {
        if input[0] == '=' {
            lemma_read_string(input.skip(1));
            lemma_take_split(input, 1, n - 1);
            assert(input.take(1) =~= seq!['=']);
        } else {
            assert(input.take(n) =~= enc_served(served));
        }
    }
}

// Records

#[verifier::rlimit(40)]
proof fn lemma_write_file(file: FileView, rest: Seq<char>)
    ensures
        dec_file(enc_file(file) + rest) == Some((file, enc_file(file).len() as int)),
{
    reveal(dec_file);
    let e1 = enc_source(file.source);
    let e2 = enc_options(file.options);
    let e3 = enc_served(file.served_location);
    let e4 = enc_flag(file.url_encoded);
    let input = e1 + e2 + e3 + e4 + rest;
    let r1 = e2 + e3 + e4 + rest;
    let r2 = e3 + e4 + rest;
    let r3 = e4 + rest;
    lemma_regroup(e1, e2, e3, e4, rest);
    lemma_write_source(file.source, r1);
    lemma_prefix(e1, r1);
    lemma_write_options(file.options, r2);
    lemma_prefix(e2, r2);
    lemma_take_split(input, e1.len() as int, e2.len() as int);
    lemma_write_served(file.served_location, r3);
    lemma_prefix(e3, r3);
    lemma_take_split(input, (e1.len() + e2.len()) as int, e3.len() as int);
    lemma_write_flag(file.url_encoded, rest);
}

#[verifier::rlimit(40)]
proof fn lemma_read_file(input: Seq<char>)
    ensures
        dec_file(input) matches Some((file, n)) ==> 0 < n <= input.len() && input.take(n)
            == enc_file(file),
{
    reveal(dec_file);
    if let Some((file, n)) = dec_file(input) {
        lemma_read_source(input);
        let (source, n1) = dec_source(input)->0;
        lemma_read_options(input.skip(n1));
        let (options, n2) = dec_options(input.skip(n1))->0;
        lemma_read_served(input.skip(n1 + n2));
        let (served, n3) = dec_served(input.skip(n1 + n2))->0;
        let (flag, n4) = dec_flag(input.skip(n1 + n2 + n3))->0;
        lemma_take_split(input, n1, n2);
        lemma_take_split(input, n1 + n2, n3);
        lemma_take_split(input, n1 + n2 + n3, n4);
        assert(input.skip(n1 + n2 + n3).take(n4) =~= enc_flag(flag));
    }
}

proof fn lemma_write_folder(folder: FolderView, rest: Seq<char>)
    ensures
        dec_folder(enc_folder(folder) + rest) == Some((folder, enc_folder(folder).len() as int)),
{
    reveal(dec_folder);
    let input = enc_folder(folder) + rest;
    let e1 = enc_source(folder.source);
    let r1 = enc_served(folder.served_location) + rest;
    assert(input =~= e1 + r1);
    lemma_write_source(folder.source, r1);
    lemma_prefix(e1, r1);
    lemma_write_served(folder.served_location, rest);
}

proof fn lemma_read_folder(input: Seq<char>)
    ensures
        dec_folder(input) matches Some((folder, n)) ==> 0 < n <= input.len() && input.take(n)
            == enc_folder(folder),
{
    reveal(dec_folder);
    if let Some((folder, n)) = dec_folder(input) {
        lemma_read_source(input);
        let (source, n1) = dec_source(input)->0;
        lemma_read_served(input.skip(n1));
        let (served, n2) = dec_served(input.skip(n1))->0;
        lemma_take_split(input, n1, n2);
    }
}

/// A record that was written is read back as it was, whatever follows it.
#[verifier::rlimit(40)]
pub proof fn lemma_write_asset(asset: AssetView, rest: Seq<char>)
    ensures
        enc_asset(asset).len() > 0,
        dec_asset(enc_asset(asset) + rest) == Some((asset, enc_asset(asset).len() as int)),
{
    reveal(dec_asset);
    let input = enc_asset(asset) + rest;
    match asset {
        AssetView::File(file) => {
            assert(input[0] == 'F');
            assert(input.skip(1) =~= enc_file(file) + rest);
            lemma_write_file(file, rest);
        },
        AssetView::Folder(folder) => {
            assert(input[0] == 'D');
            assert(input.skip(1) =~= enc_folder(folder) + rest);
            lemma_write_folder(folder, rest);
        },
        AssetView::Tailwind(classes) => {
            assert(input[0] == 'T');
            assert(input.skip(1) =~= enc_string(classes) + rest);
            lemma_write_string(classes, rest);
        },
    }
}

/// What is read as a record is the text of that record.
#[verifier::rlimit(40)]
pub proof fn lemma_read_asset(input: Seq<char>)
    ensures
        dec_asset(input) matches Some((asset, n)) ==> 0 < n <= input.len() && input.take(n)
            == enc_asset(asset),
{
    reveal(dec_asset);
    if let Some((asset, n)) = dec_asset(input) {
        if input[0] == 'F' {
            lemma_read_file(input.skip(1));
        } else if input[0] == 'D' {
            lemma_read_folder(input.skip(1));
        } else {
            lemma_read_string(input.skip(1));
        }
        lemma_take_split(input, 1, n - 1);
        assert(input.take(1) =~= seq![input[0]]);
    }
}

// Blobs

/// The records of two lists, one list after the other.
pub proof fn lemma_blob_concat(a: Seq<AssetView>, b: Seq<AssetView>)
    ensures
        enc_blob(a + b) == enc_blob(a) + enc_blob(b),
    decreases a.len(),
{
    if a.len() == 0 {
        assert(a + b =~= b);
        assert(enc_blob(a) + enc_blob(b) =~= enc_blob(b));
    } else {
        lemma_blob_concat(a.drop_first(), b);
        assert((a + b).drop_first() =~= a.drop_first() + b);
        assert(enc_blob(a + b) =~= enc_blob(a) + enc_blob(b));
    }
}

/// A blob that was written is read back as the records it was written from.
pub proof fn lemma_write_blob(assets: Seq<AssetView>)
    ensures
        dec_blob(enc_blob(assets)) == Some(assets),
    decreases assets.len(),
{
    if assets.len() > 0 {
        let head = enc_asset(assets[0]);
        let tail = enc_blob(assets.drop_first());
        lemma_write_asset(assets[0], tail);
        lemma_prefix(head, tail);
        lemma_write_blob(assets.drop_first());
        assert(seq![assets[0]] + assets.drop_first() =~= assets);
    }
}

/// What is read as a blob is the text of its records.
#[verifier::rlimit(40)]
pub proof fn lemma_read_blob(input: Seq<char>)
    ensures
        dec_blob(input) matches Some(assets) ==> input == enc_blob(assets),
    decreases input.len(),
{
    if let Some(assets) = dec_blob(input) {
        if input.len() == 0 {
            assert(input =~= enc_blob(assets));
        } else {
            lemma_read_asset(input);
            let (asset, n) = dec_asset(input)->0;
            lemma_read_blob(input.skip(n));
            let rest = dec_blob(input.skip(n))->0;
            assert(assets == seq![asset] + rest);
            assert(assets[0] == asset);
            assert(assets.drop_first() =~= rest);
            assert(input =~= input.take(n) + input.skip(n));
        }
    }
}

/// No two lists of descriptors have the same records.
pub proof fn lemma_blob_injective(a: Seq<AssetView>, b: Seq<AssetView>)
    requires
        enc_blob(a) == enc_blob(b),
    ensures
        a == b,
{
    lemma_write_blob(a);
    lemma_write_blob(b);
}

// Packages

/// A package's text that was written is read back as it was.
pub proof fn lemma_write_package(package: Seq<char>, assets: Seq<AssetView>)
    ensures
        dec_package(enc_package(package, assets)) == Some((package, assets)),
{
    lemma_write_string(package, enc_blob(assets));
    lemma_prefix(enc_string(package), enc_blob(assets));
    lemma_write_blob(assets);
}

/// What is read as a package's text is the text of that package.
pub proof fn lemma_read_package(input: Seq<char>)
    ensures
        dec_package(input) matches Some((package, assets)) ==> input == enc_package(
            package,
            assets,
        ),
{
    if let Some((package, assets)) = dec_package(input) {
        lemma_read_string(input);
        let (_, n) = dec_string(input)->0;
        lemma_read_blob(input.skip(n));
        assert(input =~= input.take(n) + input.skip(n));
    }
}

/// No two packages have the same text.
pub proof fn lemma_package_injective(
    package1: Seq<char>,
    assets1: Seq<AssetView>,
    package2: Seq<char>,
    assets2: Seq<AssetView>,
)
    requires
        enc_package(package1, assets1) == enc_package(package2, assets2),
    ensures
        package1 == package2,
        assets1 == assets2,
{
    lemma_write_package(package1, assets1);
    lemma_write_package(package2, assets2);
}

// Control characters

/// Whether `text` holds no control character.
pub open spec fn no_control(text: Seq<char>) -> bool {
    forall|i: int| 0 <= i < text.len() ==> !is_control(#[trigger] text[i])
}

/// Texts without control characters, one after the other, hold none.
proof fn lemma_no_control_concat(a: Seq<char>, b: Seq<char>)
    requires
        no_control(a),
        no_control(b),
    ensures
        no_control(a + b),
{
    assert forall|i: int| 0 <= i < (a + b).len() implies !is_control(#[trigger] (a + b)[i]) by {
        if i < a.len() {
            assert((a + b)[i] == a[i]);
        } else {
            assert((a + b)[i] == b[i - a.len()]);
        }
    }
}

proof fn lemma_item_no_control(c: char)
    ensures
        no_control(escape_char(c)),
{
    if is_control(c) {
        assert(0 <= c as int / 16 < 16);
        assert(0 <= c as int % 16 < 16);
    }
}

proof fn lemma_string_no_control(s: Seq<char>)
    ensures
        no_control(escape(s)),
        no_control(enc_string(s)),
    decreases s.len(),
{
    if s.len() > 0 {
        lemma_string_no_control(s.drop_first());
        lemma_item_no_control(s[0]);
        lemma_no_control_concat(escape_char(s[0]), escape(s.drop_first()));
    }
    lemma_no_control_concat(seq!['"'], escape(s));
    lemma_no_control_concat(seq!['"'] + escape(s), seq!['"']);
}

proof fn lemma_digits_no_control(n: nat)
    ensures
        no_control(digits(n)),
{
    lemma_digits_shape(n);
}

proof fn lemma_options_no_control(options: FileOptions)
    ensures
        no_control(enc_options(options)),
{
    match options {
        FileOptions::Css(css) => {
            lemma_no_control_concat(seq!['c'], enc_flag(css.preload));
        },
        FileOptions::Image(image) => {
            let size = enc_size(image.size);
            assert(no_control(size)) by {
                match image.size {
                    None => {},
                    Some(ImageSize { width, height }) => {
                        lemma_digits_no_control(width as nat);
                        lemma_digits_no_control(height as nat);
                        lemma_no_control_concat(seq!['['], digits(width as nat));
                        lemma_no_control_concat(seq!['['] + digits(width as nat), seq!['x']);
                        lemma_no_control_concat(
                            seq!['['] + digits(width as nat) + seq!['x'],
                            digits(height as nat),
                        );
                        lemma_no_control_concat(
                            seq!['['] + digits(width as nat) + seq!['x'] + digits(height as nat),
                            seq![']'],
                        );
                    },
                }
            }
            lemma_no_control_concat(seq!['i'], enc_format(image.ty));
            lemma_no_control_concat(seq!['i'] + enc_format(image.ty), size);
            lemma_no_control_concat(
                seq!['i'] + enc_format(image.ty) + size,
                enc_flag(image.preload),
            );
        },
        FileOptions::Js(js) => {
            lemma_no_control_concat(seq!['j'], enc_flag(js.minify));
            lemma_no_control_concat(seq!['j'] + enc_flag(js.minify), enc_flag(js.preload));
        },
        FileOptions::Other => {},
    }
}

proof fn lemma_source_no_control(source: SourceView)
    ensures
        no_control(enc_source(source)),
{
    match source {
        SourceView::Local(path) => {
            lemma_string_no_control(path);
            lemma_no_control_concat(seq!['L'], enc_string(path));
        },
        SourceView::Remote(url) => {
            lemma_string_no_control(url);
            lemma_no_control_concat(seq!['R'], enc_string(url));
        },
    }
}

proof fn lemma_served_no_control(served: Result<Seq<char>, SupportError>)
    ensures
        no_control(enc_served(served)),
{
    match served {
        Ok(location) => {
            lemma_string_no_control(location);
            lemma_no_control_concat(seq!['='], enc_string(location));
        },
        Err(_) => {},
    }
}

/// No record holds a control character.
pub proof fn lemma_asset_no_control(asset: AssetView)
    ensures
        no_control(enc_asset(asset)),
{
    match asset {
        AssetView::File(file) => {
            let e1 = enc_source(file.source);
            let e2 = enc_options(file.options);
            let e3 = enc_served(file.served_location);
            let e4 = enc_flag(file.url_encoded);
            lemma_source_no_control(file.source);
            lemma_options_no_control(file.options);
            lemma_served_no_control(file.served_location);
            lemma_no_control_concat(e1, e2);
            lemma_no_control_concat(e1 + e2, e3);
            lemma_no_control_concat(e1 + e2 + e3, e4);
            lemma_no_control_concat(seq!['F'], enc_file(file));
        },
        AssetView::Folder(folder) => {
            lemma_source_no_control(folder.source);
            lemma_served_no_control(folder.served_location);
            lemma_no_control_concat(enc_source(folder.source), enc_served(folder.served_location));
            lemma_no_control_concat(seq!['D'], enc_folder(folder));
        },
        AssetView::Tailwind(classes) => {
            lemma_string_no_control(classes);
            lemma_no_control_concat(seq!['T'], enc_string(classes));
        },
    }
}

/// No blob of records holds a control character: whatever characters the
/// strings of the descriptors hold, they are written with escapes.
pub proof fn lemma_blob_no_control(assets: Seq<AssetView>)
    ensures
        no_control(enc_blob(assets)),
    decreases assets.len(),
{
    if assets.len() > 0 {
        lemma_asset_no_control(assets[0]);
        lemma_blob_no_control(assets.drop_first());
        lemma_no_control_concat(enc_asset(assets[0]), enc_blob(assets.drop_first()));
    }
}

} // verus!
