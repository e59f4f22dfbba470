use vstd::prelude::*;
use crate::color::{Background, RgbColor, white};
use crate::error::IconError;
use vstd::utf8::encode_utf8;

verus! {

/// The byte `,` that separates channels.
pub const COMMA: u8 = 44;

/// The byte `+`, an optional sign in front of a channel.
pub const PLUS: u8 = 43;

pub open spec fn is_digit(b: u8) -> bool {
    48 <= b <= 57
}

/// Every byte is a decimal digit.
pub open spec fn all_digits(d: Seq<u8>) -> bool {
    forall|i: int| 0 <= i < d.len() ==> is_digit(#[trigger] d[i])
}

/// The text split at every comma, empty fields kept.
pub open spec fn split_fields(s: Seq<u8>) -> Seq<Seq<u8>>
    decreases s.len(),
{
    if s.len() == 0 {
        seq![Seq::empty()]
    } else {
        let rest = split_fields(s.drop_last());
        if s.last() == COMMA {
            rest.push(Seq::empty())
        } else {
            rest.update(rest.len() - 1, rest.last().push(s.last()))
        }
    }
}

/// The number that a string of decimal digits spells.
pub open spec fn decimal_value(d: Seq<u8>) -> int
    decreases d.len(),
{
    if d.len() == 0 {
        0
    } else {
        decimal_value(d.drop_last()) * 10 + (d.last() - 48)
    }
}

/// The digits of a channel: the field without its optional leading `+`.
pub open spec fn channel_digits(f: Seq<u8>) -> Seq<u8> {
    if f.len() > 0 && f[0] == PLUS {
        f.drop_first()
    } else {
        f
    }
}

/// A channel is an optional `+` and at least one decimal digit, worth at
/// most 255.
pub open spec fn channel_of(f: Seq<u8>) -> Option<u8> {
    let d = channel_digits(f);
    if d.len() > 0 && all_digits(d) && decimal_value(d) <= 255 {
        Some(decimal_value(d) as u8)
    } else {
        None
    }
}

/// The colour that an `R,G,B` text names, if it is one.
pub open spec fn rgb_of(s: Seq<u8>) -> Option<RgbColor> {
    let f = split_fields(s);
    if f.len() == 3 && channel_of(f[0]) is Some && channel_of(f[1]) is Some && channel_of(
        f[2],
    ) is Some {
        Some(RgbColor { r: channel_of(f[0])->0, g: channel_of(f[1])->0, b: channel_of(f[2])->0 })
    } else {
        None
    }
}

/// The colour that a text names, read from its UTF-8 bytes.
pub open spec fn text_rgb(t: Seq<char>) -> Option<RgbColor> {
    rgb_of(encode_utf8(t))
}

/// `e` reports `t` as an invalid background.
pub open spec fn rejects(e: IconError, t: Seq<char>) -> bool {
    e is InvalidBackgroundSpec && e->InvalidBackgroundSpec_0@ == t
}

proof fn lemma_split_nonempty(s: Seq<u8>)
    ensures
        split_fields(s).len() >= 1,
    decreases s.len(),
{
    if s.len() > 0 {
        lemma_split_nonempty(s.drop_last());
    }
}

proof fn lemma_prefix_value_le(d: Seq<u8>, j: int)
    requires
        0 <= j <= d.len(),
        forall|i: int| 0 <= i < d.len() ==> is_digit(#[trigger] d[i]),
    ensures
        decimal_value(d.take(j)) <= decimal_value(d),
    decreases d.len(),
{
    if j < d.len() {
        let p = d.drop_last();
        assert(p.take(j) =~= d.take(j));
        assert forall|i: int| 0 <= i < p.len() implies is_digit(#[trigger] p[i]) by {
            assert(p[i] == d[i]);
        }
        lemma_prefix_value_le(p, j);
        assert(d.drop_last() == p);
        assert(d.last() == d[d.len() - 1]);
        assert(decimal_value(p) >= 0) by {
            lemma_value_nonneg(p);
        }
    } else {
        assert(d.take(j) =~= d);
    }
}

proof fn lemma_value_nonneg(d: Seq<u8>)
    requires
        forall|i: int| 0 <= i < d.len() ==> is_digit(#[trigger] d[i]),
    ensures
        decimal_value(d) >= 0,
    decreases d.len(),
{
    if d.len() > 0 {
        let p = d.drop_last();
        assert forall|i: int| 0 <= i < p.len() implies is_digit(#[trigger] p[i]) by {
            assert(p[i] == d[i]);
        }
        lemma_value_nonneg(p);
        assert(is_digit(d[d.len() - 1]));
    }
}

/// Reads one channel: an optional `+` and decimal digits worth at most 255.
fn parse_channel(f: &Vec<u8>) -> (r: Option<u8>)
    ensures
        r == channel_of(f@),
{
    let len = f.len();
    let start: usize = if len > 0 && f[0] == PLUS { 1 } else { 0 };
    let ghost d = channel_digits(f@);
    assert(d =~= f@.subrange(start as int, len as int));
    if start == len {
        return None;
    }
    let mut value: u32 = 0;
    let mut k: usize = start;
    while k < len
        invariant
            start <= k <= len,
            len == f@.len(),
            d == f@.subrange(start as int, len as int),
            d == channel_digits(f@),
            value <= 255,
            value as int == decimal_value(d.take(k - start)),
            forall|i: int| 0 <= i < k - start ==> is_digit(#[trigger] d[i]),
        decreases len - k,
    {
        let b = f[k];
        if b < 48 || b > 57 {
            assert(d[k - start] == b);
            assert(!is_digit(d[(k - start) as int]));
            assert(!all_digits(d));
            return None;
        }
        let ghost before = d.take(k - start);
        value = value * 10 + (b - 48) as u32;
        assert(d.take(k + 1 - start).drop_last() =~= before);
        assert(d.take(k + 1 - start).last() == b);
        assert(value as int == decimal_value(d.take(k + 1 - start)));
        k = k + 1;
        if value > 255 {
            proof {
                if all_digits(d) {
                    lemma_prefix_value_le(d, k - start);
                    assert(decimal_value(d) > 255);
                }
                assert(channel_of(f@) is None);
            }
            return None;
        }
    }
    assert(d.take(len - start) =~= d);
    Some(value as u8)
}

/// Reads a background written `R,G,B`: exactly three comma-separated
/// channels, each an optional `+` and decimal digits worth at most 255.
/// Anything else is rejected with the text itself.
pub fn parse_background(text: &str) -> (r: Result<RgbColor, IconError>)
    ensures
        match text_rgb(text@) {
            Some(c) => r == Ok::<RgbColor, IconError>(c),
            None => r is Err && rejects(r->Err_0, text@),
        },
{
    let bytes = text.as_bytes();
    let mut fields: Vec<Vec<u8>> = Vec::new();
    let mut cur: Vec<u8> = Vec::new();
    let mut i: usize = 0;
    while i < bytes.len()
        invariant
            bytes@ == encode_utf8(text@),
            0 <= i <= bytes@.len(),
            fields@.len() + 1 == split_fields(bytes@.take(i as int)).len(),
            forall|j: int|
                0 <= j < fields@.len() ==> #[trigger] fields@[j]@ == split_fields(
                    bytes@.take(i as int),
                )[j],
            cur@ == split_fields(bytes@.take(i as int)).last(),
        decreases bytes@.len() - i,
    {
        let b = bytes[i];
        let ghost before = split_fields(bytes@.take(i as int));
        proof {
            lemma_split_nonempty(bytes@.take(i as int));
            assert(bytes@.take(i + 1).drop_last() =~= bytes@.take(i as int));
            assert(bytes@.take(i + 1).last() == b);
        }
        if b == COMMA {
            fields.push(cur);
            cur = Vec::new();
            assert(cur@ =~= Seq::<u8>::empty());
        } else {
            cur.push(b);
        }
        i = i + 1;
    }
    assert(bytes@.take(bytes@.len() as int) =~= bytes@);
    let ghost f = split_fields(bytes@);
    if fields.len() != 2 {
        return Err(IconError::InvalidBackgroundSpec(text.to_owned()));
    }
    assert(fields@[0]@ == f[0] && fields@[1]@ == f[1] && cur@ == f[2]);
    let r = parse_channel(&fields[0]);
    let g = parse_channel(&fields[1]);
    let b = parse_channel(&cur);
    match (r, g, b) {
        (Some(r), Some(g), Some(b)) => Ok(RgbColor { r, g, b }),
        _ => Err(IconError::InvalidBackgroundSpec(text.to_owned())),
    }
}

/// Every text names a colour.
pub open spec fn all_valid(texts: Seq<String>) -> bool {
    forall|j: int| 0 <= j < texts.len() ==> (#[trigger] text_rgb(texts[j]@)) is Some
}

/// Builds the ordered list of backgrounds for a preview: no background
/// first, then opaque white, then each given `R,G,B` text in order. The
/// first text that is not a colour is rejected, and nothing is returned.
pub fn resolve_backgrounds(texts: &Vec<String>) -> (r: Result<Vec<Background>, IconError>)
    ensures
        r is Ok <==> all_valid(texts@),
        r is Ok ==> {
            let v = r->Ok_0@;
            &&& v.len() == texts@.len() + 2
            &&& v[0] == Background::Original
            &&& v[1] == Background::Solid(white())
            &&& forall|j: int|
                0 <= j < texts@.len() ==> v[j + 2] == Background::Solid(
                    (#[trigger] text_rgb(texts@[j]@))->0,
                )
        },
        r is Err ==> exists|j: int|
            0 <= j < texts@.len() && (#[trigger] text_rgb(texts@[j]@)) is None && rejects(
                r->Err_0,
                texts@[j]@,
            ),
{
    let mut v: Vec<Background> = Vec::new();
    v.push(Background::Original);
    v.push(Background::Solid(RgbColor { r: 255, g: 255, b: 255 }));
    let mut i: usize = 0;
    while i < texts.len()
        invariant
            0 <= i <= texts@.len(),
            v@.len() == i + 2,
            v@[0] == Background::Original,
            v@[1] == Background::Solid(white()),
            forall|j: int| 0 <= j < i ==> (#[trigger] text_rgb(texts@[j]@)) is Some,
            forall|j: int|
                0 <= j < i ==> v@[j + 2] == Background::Solid(
                    (#[trigger] text_rgb(texts@[j]@))->0,
                ),
        decreases texts@.len() - i,
    {
        let parsed = parse_background(texts[i].as_str());
        match parsed {
            Ok(c) => {
                v.push(Background::Solid(c));
            },
            Err(e) => {
                return Err(e);
            },
        }
        i = i + 1;
    }
    Ok(v)
}

} // verus!
