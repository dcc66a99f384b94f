//! Decoding text in a legacy encoding, done by the `encoding_rs` crate.

use vstd::prelude::*;
use vstd::utf8::encode_utf8;
use encoding_rs::Encoding;

verus! {

#[verifier::external_type_specification]
#[verifier::external_body]
pub struct ExEncoding(Encoding);

/// Whether `label` names an encoding of the Encoding Standard (once ASCII
/// case and surrounding whitespace are ignored).
pub uninterp spec fn label_known(label: Seq<u8>) -> bool;

/// Whether `b` is whitespace that may pad an encoding label: tab, line feed,
/// form feed, carriage return or space.
pub open spec fn label_space(b: u8) -> bool {
    b == 0x09 || b == 0x0a || b == 0x0c || b == 0x0d || b == 0x20
}

/// `l` without the label whitespace around it.
pub open spec fn trim_label(l: Seq<u8>) -> Seq<u8>
    decreases l.len(),
{
    if l.len() > 0 && label_space(l[0]) {
        trim_label(l.drop_first())
    } else if l.len() > 0 && label_space(l.last()) {
        trim_label(l.drop_last())
    } else {
        l
    }
}

/// `l` with its ASCII capital letters in lower case.
pub open spec fn ascii_lower(l: Seq<u8>) -> Seq<u8> {
    l.map_values(|b: u8| if 0x41 <= b <= 0x5a { (b + 0x20) as u8 } else { b })
}

/// Whether `label` names UTF-8: once trimmed of label whitespace and put in
/// lower case, it is one of the six labels of UTF-8 (`utf-8`, `utf8`,
/// `unicode-1-1-utf-8`, `unicode11utf8`, `unicode20utf8`, `x-unicode20utf8`).
pub open spec fn label_is_utf8(label: Seq<u8>) -> bool {
    let t = ascii_lower(trim_label(label));
    ||| t == seq![0x75u8, 0x74u8, 0x66u8, 0x2du8, 0x38u8]
    ||| t == seq![0x75u8, 0x74u8, 0x66u8, 0x38u8]
    ||| t == seq![0x75u8, 0x6eu8, 0x69u8, 0x63u8, 0x6fu8, 0x64u8, 0x65u8, 0x2du8, 0x31u8, 0x2du8, 0x31u8, 0x2du8, 0x75u8, 0x74u8, 0x66u8, 0x2du8, 0x38u8]
    ||| t == seq![0x75u8, 0x6eu8, 0x69u8, 0x63u8, 0x6fu8, 0x64u8, 0x65u8, 0x31u8, 0x31u8, 0x75u8, 0x74u8, 0x66u8, 0x38u8]
    ||| t == seq![0x75u8, 0x6eu8, 0x69u8, 0x63u8, 0x6fu8, 0x64u8, 0x65u8, 0x32u8, 0x30u8, 0x75u8, 0x74u8, 0x66u8, 0x38u8]
    ||| t == seq![0x78u8, 0x2du8, 0x75u8, 0x6eu8, 0x69u8, 0x63u8, 0x6fu8, 0x64u8, 0x65u8, 0x32u8, 0x30u8, 0x75u8, 0x74u8, 0x66u8, 0x38u8]
}

/// The text that decoding `data` in the encoding that `label` names gives:
/// a byte order mark selects its own encoding and is dropped, and malformed
/// sequences become U+FFFD.
pub uninterp spec fn decoded_text(label: Seq<u8>, data: Seq<u8>) -> Seq<char>;

/// An encoding, with the label that selected it.
struct Decoder {
    encoding: &'static Encoding,
    label: Vec<u8>,
}

/// `Encoding::for_label`: the encoding that `label` names, or `None` when it
/// names none. The contract claims that the lookup depends on the label
/// alone; nothing about it is proved here.
#[verifier::external_body]
fn decoder_for_label(label: &[u8]) -> (res: Option<Decoder>)
    ensures
        res is Some <==> label_known(label@),
        res matches Some(d) ==> d.label@ == label@,
{
    match Encoding::for_label(label) {
        Some(encoding) => Some(Decoder { encoding, label: label.to_vec() }),
        None => None,
    }
}

/// Whether the decoder's encoding is UTF-8: `Encoding`'s `==` against
/// `encoding_rs::UTF_8`, which compares the unique static instances. The
/// contract claims that this holds exactly for the labels of UTF-8 once
/// trimmed and in lower case, as `Encoding::for_label` maps them; nothing
/// about it is proved here.
#[verifier::external_body]
fn decoder_is_utf8(d: &Decoder) -> (res: bool)
    ensures
        res == label_is_utf8(d.label@),
{
    d.encoding == encoding_rs::UTF_8
}

/// `Encoding::decode`: the UTF-8 bytes of the text that `data` decodes to in
/// the decoder's encoding. The contract claims that the result depends on the
/// label and `data` alone and is the UTF-8 encoding of a text; nothing about
/// it is proved here.
#[verifier::external_body]
fn decode_with(d: &Decoder, data: &[u8]) -> (res: Vec<u8>)
    ensures
        res@ == encode_utf8(decoded_text(d.label@, data@)),
{
    let (text, _, _) = d.encoding.decode(data);
    text.into_owned().into_bytes()
}

/// What decoding `data` as `encoding_name` gives: `data` itself when no
/// encoding is named, when the name is unknown or when it names UTF-8, and
/// otherwise the UTF-8 encoding of the decoded text.
pub open spec fn decode_result(data: Seq<u8>, encoding_name: Option<Seq<u8>>) -> Seq<u8> {
    match encoding_name {
        None => data,
        Some(label) => if !label_known(label) || label_is_utf8(label) {
            data
        } else {
            encode_utf8(decoded_text(label, data))
        },
    }
}

/// Whether `name` names an encoding that can be decoded from.
pub fn encoding_known(name: &str) -> (res: bool)
    ensures
        res == label_known(encode_utf8(name@)),
{
    decoder_for_label(name.as_bytes()).is_some()
}

/// Whether decoding from the encoding that `name` names changes bytes at
/// all: `name` is known and does not name UTF-8.
pub fn encoding_decodes(name: &str) -> (res: bool)
    ensures
        res == (label_known(encode_utf8(name@)) && !label_is_utf8(encode_utf8(name@))),
{
    match decoder_for_label(name.as_bytes()) {
        None => false,
        Some(d) => !decoder_is_utf8(&d),
    }
}

/// Decodes `data` from the encoding that `encoding_name` names into UTF-8.
/// No encoding is guessed: without a name, with an unknown name, or with
/// UTF-8, the bytes are kept as they are.
pub fn decode_to_utf8(data: &[u8], encoding_name: Option<&str>) -> (res: Vec<u8>)
    ensures
        res@ == decode_result(
            data@,
            match encoding_name {
                Some(n) => Some(encode_utf8(n@)),
                None => None,
            },
        ),
{
    match encoding_name {
        None => vstd::slice::slice_to_vec(data),
        Some(name) => {
            let label = name.as_bytes();
            match decoder_for_label(label) {
                None => vstd::slice::slice_to_vec(data),
                Some(d) => {
                    if decoder_is_utf8(&d) {
                        vstd::slice::slice_to_vec(data)
                    } else {
                        decode_with(&d, data)
                    }
                },
            }
        },
    }
}

} // verus!
