//! The address under which a set of fonts is fetched.

use crate::codec::encode::write_number;
use crate::codec::grammar::digits;
use crate::options::same_text;
use vstd::prelude::*;
use vstd::string::StringExecFns;

verus! {

/// Which fonts are asked for.
#[derive(Debug, PartialEq, Eq)]
pub struct ParseFontOptions {
    pub families: Vec<String>,
    pub weights: Vec<u32>,
    /// The characters that the fonts are needed for, where only some are.
    pub text: Option<String>,
    /// How the fonts are to be shown while they load.
    pub display: Option<String>,
}

/// The options that fonts may be declared with, by name.
#[derive(Clone, Copy, Debug, PartialEq, Eq, Structural)]
pub enum FontOptionName {
    Families,
    Weights,
    Text,
    Display,
}

/// The font option of the given lower-case name.
pub open spec fn font_option_named(name: Seq<char>) -> Option<FontOptionName> {
    if name == "families"@ {
        Some(FontOptionName::Families)
    } else if name == "weights"@ {
        Some(FontOptionName::Weights)
    } else if name == "text"@ {
        Some(FontOptionName::Text)
    } else if name == "display"@ {
        Some(FontOptionName::Display)
    } else {
        None
    }
}

/// The font option of the given lower-case name: `families`, `weights`,
/// `text` or `display`. `None` for any other name.
pub fn parse_font_option_name(name: &str) -> (out: Option<FontOptionName>)
    ensures
        out == font_option_named(name@),
{
    if same_text(name, "families") {
        Some(FontOptionName::Families)
    } else if same_text(name, "weights") {
        Some(FontOptionName::Weights)
    } else if same_text(name, "text") {
        Some(FontOptionName::Text)
    } else if same_text(name, "display") {
        Some(FontOptionName::Display)
    } else {
        None
    }
}

/// `s` with a plus sign in place of every space.
pub open spec fn plus_for_spaces(s: Seq<char>) -> Seq<char> {
    s.map_values(
        |c: char|
            if c == ' ' {
                '+'
            } else {
                c
            },
    )
}

/// The parts with `separator` between each two of them.
pub open spec fn joined(parts: Seq<Seq<char>>, separator: Seq<char>) -> Seq<char>
    decreases parts.len(),
{
    if parts.len() == 0 {
        Seq::empty()
    } else if parts.len() == 1 {
        parts[0]
    } else {
        joined(parts.drop_last(), separator) + separator + parts.last()
    }
}

/// The views of a list of strings.
pub open spec fn views_of(strings: Seq<String>) -> Seq<Seq<char>> {
    strings.map_values(|s: String| s@)
}

/// The segments of the query for the given fonts: families, weights, text
/// and display, those that are asked for, in this order.
pub open spec fn query_segments(
    families: Seq<Seq<char>>,
    weights: Seq<u32>,
    text: Option<Seq<char>>,
    display: Option<Seq<char>>,
) -> Seq<Seq<char>> {
    let family_part = if families.len() == 0 {
        Seq::<Seq<char>>::empty()
    } else {
        seq!["family="@ + joined(families.map_values(|f: Seq<char>| plus_for_spaces(f)), "&"@)]
    };
    let weight_part = if weights.len() == 0 {
        Seq::<Seq<char>>::empty()
    } else {
        seq!["weight="@ + joined(weights.map_values(|w: u32| digits(w as nat)), ","@)]
    };
    let text_part = match text {
        Some(text) => seq!["text="@ + plus_for_spaces(text)],
        None => Seq::<Seq<char>>::empty(),
    };
    let display_part = match display {
        Some(display) => seq!["display="@ + plus_for_spaces(display)],
        None => Seq::<Seq<char>>::empty(),
    };
    family_part + weight_part + text_part + display_part
}

/// The address for the given segments of a query.
pub open spec fn font_url(segments: Seq<Seq<char>>) -> Seq<char> {
    if segments.len() == 0 {
        "https://fonts.googleapis.com/css2"@
    } else {
        "https://fonts.googleapis.com/css2"@ + "?"@ + joined(segments, "&"@)
    }
}

/// `s` with a plus sign in place of every space.
pub fn replace_spaces(s: &str) -> (out: String)
    ensures
        out@ == plus_for_spaces(s@),
{
    let mut out = String::new();
    for c in it: s.chars()
        invariant
            it.seq() == s@,
            out@ == plus_for_spaces(s@.take(it.index())),
    {
        if c == ' ' {
            out.push('+');
        } else {
            out.push(c);
        }
        assert(out@ =~= plus_for_spaces(s@.take(it.index() + 1)));
    }
    assert(s@.take(s@.len() as int) =~= s@);
    out
}

/// The parts with `separator` between each two of them.
pub fn join(parts: &Vec<String>, separator: &str) -> (out: String)
    ensures
        out@ == joined(views_of(parts@), separator@),
{
    let ghost views = views_of(parts@);
    let mut out = String::new();
    let mut i: usize = 0;
    assert(views.take(0) =~= Seq::<Seq<char>>::empty());
    while i < parts.len()
        invariant
            i <= parts.len(),
            views == views_of(parts@),
            out@ == joined(views.take(i as int), separator@),
        decreases parts.len() - i,
    {
        proof {
            let next = views.take(i + 1);
            assert(next.drop_last() =~= views.take(i as int));
            assert(next.last() == parts@[i as int]@);
            if i == 0 {
                assert(next[0] == parts@[0]@);
            }
        }
        if i > 0 {
            out.append(separator);
        }
        out.append(parts[i].as_str());
        assert(out@ =~= joined(views.take(i + 1), separator@));
        i += 1;
    }
    assert(views.take(i as int) =~= views);
    out
}

/// `v` in decimal digits.
pub fn decimal(v: u32) -> (out: String)
    ensures
        out@ == digits(v as nat),
{
    let mut out = String::new();
    write_number(&mut out, v);
    assert(out@ =~= digits(v as nat));
    out
}

impl ParseFontOptions {
    /// The segments of the query for these fonts.
    pub open spec fn spec_segments(&self) -> Seq<Seq<char>> {
        query_segments(
            views_of(self.families@),
            self.weights@,
            match self.text {
                Some(text) => Some(text@),
                None => None,
            },
            match self.display {
                Some(display) => Some(display@),
                None => None,
            },
        )
    }

    /// The address under which these fonts are fetched.
    pub fn url(&self) -> (out: String)
        ensures
            out@ == font_url(self.spec_segments()),
    {
        let mut segments: Vec<String> = Vec::new();
        let ghost family_views = views_of(self.families@);

        let mut families: Vec<String> = Vec::new();
        let mut i: usize = 0;
        while i < self.families.len()
            invariant
                i <= self.families.len(),
                family_views == views_of(self.families@),
                views_of(families@) == family_views.take(i as int).map_values(
                    |f: Seq<char>| plus_for_spaces(f),
                ),
            decreases self.families.len() - i,
        {
            let ghost before = families@;
            families.push(replace_spaces(self.families[i].as_str()));
            assert(views_of(families@) =~= family_views.take(i + 1).map_values(
                |f: Seq<char>| plus_for_spaces(f),
            )) by {
                assert(views_of(families@) =~= views_of(before).push(
                    plus_for_spaces(self.families@[i as int]@),
                ));
            }
            i += 1;
        }
        assert(family_views.take(i as int) =~= family_views);
        if families.len() > 0 {
            let mut segment = String::from_str("family=");
            segment.append(join(&families, "&").as_str());
            segments.push(segment);
        }

        let mut weights: Vec<String> = Vec::new();
        let mut j: usize = 0;
        while j < self.weights.len()
            invariant
                j <= self.weights.len(),
                views_of(weights@) == self.weights@.take(j as int).map_values(
                    |w: u32| digits(w as nat),
                ),
            decreases self.weights.len() - j,
        {
            let ghost before = weights@;
            weights.push(decimal(self.weights[j]));
            assert(views_of(weights@) =~= self.weights@.take(j + 1).map_values(
                |w: u32| digits(w as nat),
            )) by {
                assert(views_of(weights@) =~= views_of(before).push(
                    digits(self.weights@[j as int] as nat),
                ));
            }
            j += 1;
        }
        assert(self.weights@.take(j as int) =~= self.weights@);
        if weights.len() > 0 {
            let ghost before = segments@;
            let mut segment = String::from_str("weight=");
            segment.append(join(&weights, ",").as_str());
            segments.push(segment);
            assert(views_of(segments@) =~= views_of(before).push(segment@));
        }

        if let Some(text) = &self.text {
            let ghost before = segments@;
            let mut segment = String::from_str("text=");
            segment.append(replace_spaces(text.as_str()).as_str());
            segments.push(segment);
            assert(views_of(segments@) =~= views_of(before).push(segment@));
        }

        if let Some(display) = &self.display {
            let ghost before = segments@;
            let mut segment = String::from_str("display=");
            segment.append(replace_spaces(display.as_str()).as_str());
            segments.push(segment);
            assert(views_of(segments@) =~= views_of(before).push(segment@));
        }
        assert(views_of(segments@) =~= self.spec_segments());

        let mut url = String::from_str("https://fonts.googleapis.com/css2");
        if segments.len() > 0 {
            url.append("?");
            url.append(join(&segments, "&").as_str());
        }
        url
    }
}

} // verus!
