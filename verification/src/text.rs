//! Numbers and exchanges as text, the way origins and messages show them.

use vstd::prelude::*;

use crate::sdo::{Exchange, Sdo};

verus! {

/// The sixteen digits, by value.
pub open spec fn digit(value: nat) -> char {
    "0123456789abcdef"@[value as int]
}

/// A number in decimal, without leading zeros.
pub open spec fn decimal(value: nat) -> Seq<char>
    decreases value,
{
    if value < 10 {
        seq![digit(value)]
    } else {
        decimal(value / 10).push(digit(value % 10))
    }
}

/// The last `width` hexadecimal digits of a number.
pub open spec fn hexadecimal(value: nat, width: nat) -> Seq<char>
    decreases width,
{
    if width == 0 {
        seq![]
    } else {
        hexadecimal(value / 16, (width - 1) as nat).push(digit(value % 16))
    }
}

/// A truth value in words.
pub open spec fn word(value: bool) -> Seq<char> {
    if value { "true"@ } else { "false"@ }
}

/// Bytes in decimal, with commas between them.
pub open spec fn enumerated(bytes: Seq<u8>) -> Seq<char>
    decreases bytes.len(),
{
    if bytes.len() == 0 {
        seq![]
    } else if bytes.len() == 1 {
        decimal(bytes[0] as nat)
    } else {
        enumerated(bytes.drop_last()) + ", "@ + decimal(bytes.last() as nat)
    }
}

/// Bytes in decimal, in brackets.
pub open spec fn listed(bytes: Seq<u8>) -> Seq<char> {
    "["@ + enumerated(bytes) + "]"@
}

/// Bytes that may be absent.
pub open spec fn listed_if_any(bytes: Option<Seq<u8>>) -> Seq<char> {
    match bytes {
        Some(bytes) => "Some("@ + listed(bytes) + ")"@,
        None => "None"@,
    }
}

/// The object a message is about.
pub open spec fn object_shown(index: u16, subindex: u8) -> Seq<char> {
    "index: "@ + decimal(index as nat) + ", subindex: "@ + decimal(subindex as nat)
}

/// The object, the data and the size of an initiate.
pub open spec fn initiate_shown(
    index: u16,
    subindex: u8,
    expedited: Option<Seq<u8>>,
    size: u32,
) -> Seq<char> {
    object_shown(index, subindex) + ", expedited: "@ + listed_if_any(expedited) + ", size: "@
        + decimal(size as nat)
}

/// The toggle, the data and the last bit of a segment.
pub open spec fn segment_shown(toggle: bool, data: Seq<u8>, last: bool) -> Seq<char> {
    "toggle: "@ + word(toggle) + ", data: "@ + listed(data) + ", last: "@ + word(last)
}

/// An exchange by its name and its fields.
pub open spec fn shown(exchange: Exchange) -> Seq<char> {
    match exchange {
        Exchange::InitiateDownload { index, subindex, expedited, size } =>
            "InitiateDownload { "@ + initiate_shown(index, subindex, expedited, size) + " }"@,
        Exchange::DownloadAccepted { index, subindex } =>
            "DownloadAccepted { "@ + object_shown(index, subindex) + " }"@,
        Exchange::DownloadSegment { toggle, data, last } =>
            "DownloadSegment { "@ + segment_shown(toggle, data, last) + " }"@,
        Exchange::SegmentAccepted { toggle } =>
            "SegmentAccepted { toggle: "@ + word(toggle) + " }"@,
        Exchange::InitiateUpload { index, subindex } =>
            "InitiateUpload { "@ + object_shown(index, subindex) + " }"@,
        Exchange::UploadOpened { index, subindex, expedited, size } =>
            "UploadOpened { "@ + initiate_shown(index, subindex, expedited, size) + " }"@,
        Exchange::UploadSegment { toggle } => "UploadSegment { toggle: "@ + word(toggle) + " }"@,
        Exchange::UploadData { toggle, data, last } =>
            "UploadData { "@ + segment_shown(toggle, data, last) + " }"@,
        Exchange::Abort { index, subindex, code } =>
            "Abort { "@ + object_shown(index, subindex) + ", code: "@ + decimal(code as nat)
                + " }"@,
    }
}

fn push_digit(text: &mut String, value: usize)
    requires
        value < 16,
    ensures
        final(text)@ == old(text)@.push(digit(value as nat)),
{
    let digits = "0123456789abcdef";
    proof {
        reveal_strlit("0123456789abcdef");
    }
    text.append(digits.substring_ascii(value, value + 1));
    assert(text@ =~= old(text)@.push(digit(value as nat)));
}

/// Write a number in decimal.
pub fn push_decimal(text: &mut String, value: u32)
    ensures
        final(text)@ == old(text)@ + decimal(value as nat),
    decreases value,
{
    if value >= 10 {
        push_decimal(text, value / 10);
    }
    push_digit(text, (value % 10) as usize);
    assert(text@ =~= old(text)@ + decimal(value as nat));
}

/// Write the last `width` hexadecimal digits of a number.
pub fn push_hexadecimal(text: &mut String, value: u32, width: usize)
    ensures
        final(text)@ == old(text)@ + hexadecimal(value as nat, width as nat),
    decreases width,
{
    if width > 0 {
        push_hexadecimal(text, value / 16, width - 1);
        push_digit(text, (value % 16) as usize);
    }
    assert(text@ =~= old(text)@ + hexadecimal(value as nat, width as nat));
}

fn push_word(text: &mut String, value: bool)
    ensures
        final(text)@ == old(text)@ + word(value),
{
    if value {
        text.append("true");
    } else {
        text.append("false");
    }
}

fn push_list(text: &mut String, bytes: &Vec<u8>)
    ensures
        final(text)@ == old(text)@ + listed(bytes@),
{
    text.append("[");
    let mut i: usize = 0;
    while i < bytes.len()
        invariant
            i <= bytes@.len(),
            text@ == old(text)@ + "["@ + enumerated(bytes@.take(i as int)),
        decreases bytes@.len() - i,
    {
        let ghost front = bytes@.take(i as int);
        if i > 0 {
            text.append(", ");
        }
        push_decimal(text, bytes[i] as u32);
        i = i + 1;
        assert(bytes@.take(i as int).drop_last() =~= front);
        assert(text@ =~= old(text)@ + "["@ + enumerated(bytes@.take(i as int)));
    }
    assert(bytes@.take(i as int) =~= bytes@);
    text.append("]");
    assert(text@ =~= old(text)@ + listed(bytes@));
}

fn push_list_if_any(text: &mut String, bytes: &Option<Vec<u8>>)
    ensures
        final(text)@ == old(text)@ + listed_if_any(crate::sdo::contents(*bytes)),
{
    match bytes {
        Some(bytes) => {
            text.append("Some(");
            push_list(text, bytes);
            text.append(")");
            assert(text@ =~= old(text)@ + ("Some("@ + listed(bytes@) + ")"@));
        },
        None => {
            text.append("None");
        },
    }
}

fn push_object(text: &mut String, index: u16, subindex: u8)
    ensures
        final(text)@ == old(text)@ + object_shown(index, subindex),
{
    text.append("index: ");
    push_decimal(text, index as u32);
    text.append(", subindex: ");
    push_decimal(text, subindex as u32);
    assert(text@ =~= old(text)@ + object_shown(index, subindex));
}

fn push_initiate(
    text: &mut String,
    index: u16,
    subindex: u8,
    expedited: &Option<Vec<u8>>,
    size: u32,
)
    ensures
        final(text)@ == old(text)@ + initiate_shown(
            index,
            subindex,
            crate::sdo::contents(*expedited),
            size,
        ),
{
    push_object(text, index, subindex);
    text.append(", expedited: ");
    push_list_if_any(text, expedited);
    text.append(", size: ");
    push_decimal(text, size);
    assert(text@ =~= old(text)@ + initiate_shown(
        index,
        subindex,
        crate::sdo::contents(*expedited),
        size,
    ));
}

fn push_segment(text: &mut String, toggle: bool, data: &Vec<u8>, last: bool)
    ensures
        final(text)@ == old(text)@ + segment_shown(toggle, data@, last),
{
    text.append("toggle: ");
    push_word(text, toggle);
    text.append(", data: ");
    push_list(text, data);
    text.append(", last: ");
    push_word(text, last);
    assert(text@ =~= old(text)@ + segment_shown(toggle, data@, last));
}

/// Write an exchange by its name and its fields.
pub fn push_sdo(text: &mut String, sdo: &Sdo)
    ensures
        final(text)@ == old(text)@ + shown(sdo@),
{
    match sdo {
        Sdo::InitiateDownload { index, subindex, expedited, size } => {
            text.append("InitiateDownload { ");
            push_initiate(text, *index, *subindex, expedited, *size);
        },
        Sdo::DownloadAccepted { index, subindex } => {
            text.append("DownloadAccepted { ");
            push_object(text, *index, *subindex);
        },
        Sdo::DownloadSegment { toggle, data, last } => {
            text.append("DownloadSegment { ");
            push_segment(text, *toggle, data, *last);
        },
        Sdo::SegmentAccepted { toggle } => {
            text.append("SegmentAccepted { toggle: ");
            push_word(text, *toggle);
        },
        Sdo::InitiateUpload { index, subindex } => {
            text.append("InitiateUpload { ");
            push_object(text, *index, *subindex);
        },
        Sdo::UploadOpened { index, subindex, expedited, size } => {
            text.append("UploadOpened { ");
            push_initiate(text, *index, *subindex, expedited, *size);
        },
        Sdo::UploadSegment { toggle } => {
            text.append("UploadSegment { toggle: ");
            push_word(text, *toggle);
        },
        Sdo::UploadData { toggle, data, last } => {
            text.append("UploadData { ");
            push_segment(text, *toggle, data, *last);
        },
        Sdo::Abort { index, subindex, code } => {
            text.append("Abort { ");
            push_object(text, *index, *subindex);
            text.append(", code: ");
            push_decimal(text, *code);
        },
    }
    text.append(" }");
    assert(text@ =~= old(text)@ + shown(sdo@));
}

/// Text in double quotes, with what would not show escaped: what the `Debug`
/// form of a string is.
pub uninterp spec fn quotation(text: Seq<char>) -> Seq<char>;

/// The `Debug` form of a string, from `std`'s `format!`. That it is a function
/// of the string alone is taken on trust; which characters it escapes, and
/// how, is not said.
#[verifier::external_body]
fn quote(text: &str) -> (quoted: String)
    ensures
        quoted@ == quotation(text@),
{
    format!("{:?}", text)
}

/// Write a string in double quotes, escaped.
pub fn push_quoted(text: &mut String, quoted: &str)
    ensures
        final(text)@ == old(text)@ + quotation(quoted@),
{
    let quoted = quote(quoted);
    text.append(quoted.as_str());
}

/// The digits are `0` to `9` and then `a` to `f`, in their order.
pub proof fn law_digits_in_order(value: nat)
    requires
        value < 16,
    ensures
        value < 10 ==> digit(value) as int == '0' as int + value,
        value >= 10 ==> digit(value) as int == 'a' as int + value - 10,
{
    reveal_strlit("0123456789abcdef");
}

/// One more decimal digit is ten times the number and the digit; a number of
/// one digit is that digit.
pub proof fn law_decimal_digit_by_digit(value: nat, last: nat)
    requires
        last < 10,
    ensures
        decimal(last).len() == 1,
        decimal(last)[0] as int == '0' as int + last,
        value > 0 ==> decimal(10 * value + last) == decimal(value) + decimal(last),
{
    law_digits_in_order(last);
    if value > 0 {
        assert((10 * value + last) / 10 == value && (10 * value + last) % 10 == last);
        assert(decimal(10 * value + last) =~= decimal(value) + decimal(last));
    }
}

/// One more hexadecimal digit is sixteen times the number and the digit; a
/// width of none shows nothing.
pub proof fn law_hexadecimal_digit_by_digit(value: nat, width: nat, last: nat)
    requires
        last < 16,
    ensures
        hexadecimal(value, 0).len() == 0,
        hexadecimal(value, width).len() == width,
        hexadecimal(16 * value + last, width + 1).drop_last() == hexadecimal(value, width),
        hexadecimal(16 * value + last, width + 1).last() as int == (if last < 10 {
            '0' as int + last
        } else {
            'a' as int + last - 10
        }),
    decreases width,
{
    law_digits_in_order(last);
    assert((16 * value + last) / 16 == value && (16 * value + last) % 16 == last);
    assert(hexadecimal(16 * value + last, width + 1).drop_last() =~= hexadecimal(value, width));
    if width > 0 {
        law_hexadecimal_digit_by_digit(value / 16, (width - 1) as nat, value % 16);
    }
}

/// A list of two lists is the one, a comma, and the other; a list of one byte
/// is that byte in decimal, and a list of none shows nothing between its
/// brackets.
pub proof fn law_lists_item_by_item(front: Seq<u8>, back: Seq<u8>, byte: u8)
    ensures
        listed(front) == "["@ + enumerated(front) + "]"@,
        front.len() == 0 ==> enumerated(front) == Seq::<char>::empty(),
        enumerated(seq![byte]) == decimal(byte as nat),
        front.len() > 0 && back.len() > 0 ==> enumerated(front + back) == enumerated(front) + ", "@
            + enumerated(back),
    decreases back.len(),
{
    if front.len() > 0 && back.len() > 0 {
        let whole = front + back;
        assert(whole.drop_last() =~= front + back.drop_last());
        if back.len() == 1 {
            assert(whole.drop_last() =~= front);
            assert(enumerated(whole) =~= enumerated(front) + ", "@ + enumerated(back));
        } else {
            law_lists_item_by_item(front, back.drop_last(), byte);
            assert(enumerated(whole) =~= enumerated(front) + ", "@ + enumerated(back));
        }
    }
}

/// An exchange shows its name and each of its fields under its own name, in
/// order: numbers in decimal, bytes as a list, and what may be absent as what
/// it is or as nothing.
pub proof fn law_exchanges_show_every_field(exchange: Exchange)
    ensures
        ({
            let truth = |value: bool| if value { "true"@ } else { "false"@ };
            let list = |bytes: Seq<u8>| "["@ + enumerated(bytes) + "]"@;
            let data = |bytes: Option<Seq<u8>>|
                if bytes is Some { "Some("@ + list(bytes->0) + ")"@ } else { "None"@ };
            let object = |index: u16, subindex: u8|
                "index: "@ + decimal(index as nat) + ", subindex: "@ + decimal(subindex as nat);
            match exchange {
                Exchange::InitiateDownload { index, subindex, expedited, size } => shown(exchange)
                    == "InitiateDownload { "@ + (object(index, subindex) + ", expedited: "@ + data(
                    expedited,
                ) + ", size: "@ + decimal(size as nat)) + " }"@,
                Exchange::UploadOpened { index, subindex, expedited, size } => shown(exchange)
                    == "UploadOpened { "@ + (object(index, subindex) + ", expedited: "@ + data(
                    expedited,
                ) + ", size: "@ + decimal(size as nat)) + " }"@,
                Exchange::DownloadAccepted { index, subindex } => shown(exchange)
                    == "DownloadAccepted { "@ + object(index, subindex) + " }"@,
                Exchange::InitiateUpload { index, subindex } => shown(exchange)
                    == "InitiateUpload { "@ + object(index, subindex) + " }"@,
                Exchange::DownloadSegment { toggle, data, last } => shown(exchange)
                    == "DownloadSegment { "@ + ("toggle: "@ + truth(toggle) + ", data: "@ + list(
                    data,
                ) + ", last: "@ + truth(last)) + " }"@,
                Exchange::UploadData { toggle, data, last } => shown(exchange) == "UploadData { "@
                    + ("toggle: "@ + truth(toggle) + ", data: "@ + list(data) + ", last: "@ + truth(
                    last,
                )) + " }"@,
                Exchange::SegmentAccepted { toggle } => shown(exchange)
                    == "SegmentAccepted { toggle: "@ + truth(toggle) + " }"@,
                Exchange::UploadSegment { toggle } => shown(exchange)
                    == "UploadSegment { toggle: "@ + truth(toggle) + " }"@,
                Exchange::Abort { index, subindex, code } => shown(exchange) == "Abort { "@
                    + object(index, subindex) + ", code: "@ + decimal(code as nat) + " }"@,
            }
        }),
{
}

} // verus!
