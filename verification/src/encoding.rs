//! The JSON encoding of a schema.

use vstd::prelude::*;
use crate::json::{JsonModel, MemberModel};
use crate::model::{FieldModel, SchemaModel, TypeSummary};
use crate::text::Text;

verus! {

/// The character of the decimal digit `digit`.
pub open spec fn digit_char(digit: nat) -> char {
    if digit == 0 {
        '0'
    } else if digit == 1 {
        '1'
    } else if digit == 2 {
        '2'
    } else if digit == 3 {
        '3'
    } else if digit == 4 {
        '4'
    } else if digit == 5 {
        '5'
    } else if digit == 6 {
        '6'
    } else if digit == 7 {
        '7'
    } else if digit == 8 {
        '8'
    } else {
        '9'
    }
}

/// `number` in decimal digits, without leading zeros.
pub open spec fn decimal(number: nat) -> Text
    decreases number,
{
    if number < 10 {
        seq![digit_char(number)]
    } else {
        decimal(number / 10).push(digit_char(number % 10))
    }
}

/// How a string range reads: `STRING(5)` where all lengths agree,
/// `STRING(1, 7)` where they do not.
pub open spec fn range_text(least: nat, greatest: nat) -> Text {
    if least == greatest {
        "STRING("@ + decimal(least) + ")"@
    } else {
        "STRING("@ + decimal(least) + ", "@ + decimal(greatest) + ")"@
    }
}

/// The encoding of one entry of a type list: a primitive is its tag, a
/// string range its text, an array an object with the one key `ARRAY`, and
/// an object entry the encoding of its schema, with no key around it.
pub open spec fn encode_type(entry: TypeSummary) -> JsonModel
    decreases entry,
{
    match entry {
        TypeSummary::Primitive(tag) => JsonModel::String(tag),
        TypeSummary::StringRange(least, greatest) => JsonModel::String(range_text(least, greatest)),
        TypeSummary::Array(items) => JsonModel::Object(
            seq![MemberModel { key: "ARRAY"@, value: JsonModel::Array(encode_types(items)) }],
        ),
        TypeSummary::Object(schema) => JsonModel::Object(encode_fields(schema.fields)),
    }
}

/// The encodings of `entries`, in their order.
pub open spec fn encode_types(entries: Seq<TypeSummary>) -> Seq<JsonModel>
    decreases entries,
{
    if entries.len() == 0 {
        Seq::empty()
    } else {
        encode_types(entries.drop_last()).push(encode_type(entries.last()))
    }
}

/// One member for each of `fields`: under the field's name an object with
/// the one key `types`, which holds the encodings of its type list.
pub open spec fn encode_fields(fields: Seq<FieldModel>) -> Seq<MemberModel>
    decreases fields,
{
    if fields.len() == 0 {
        Seq::empty()
    } else {
        encode_fields(fields.drop_last()).push(
            MemberModel {
                key: fields.last().name,
                value: JsonModel::Object(
                    seq![
                        MemberModel {
                            key: "types"@,
                            value: JsonModel::Array(encode_types(fields.last().types)),
                        },
                    ],
                ),
            },
        )
    }
}

/// The encoding of a schema: an object with one member for each field. The
/// schema's name is not part of it.
pub open spec fn encode_schema(schema: SchemaModel) -> JsonModel {
    JsonModel::Object(encode_fields(schema.fields))
}

/// The text of one decimal digit.
fn digit_text(digit: usize) -> (text: &'static str)
    requires
        digit < 10,
    ensures
        text@ == seq![digit_char(digit as nat)],
{
    proof {
        reveal_strlit("0");
        reveal_strlit("1");
        reveal_strlit("2");
        reveal_strlit("3");
        reveal_strlit("4");
        reveal_strlit("5");
        reveal_strlit("6");
        reveal_strlit("7");
        reveal_strlit("8");
        reveal_strlit("9");
    }
    let text = if digit == 0 {
        "0"
    } else if digit == 1 {
        "1"
    } else if digit == 2 {
        "2"
    } else if digit == 3 {
        "3"
    } else if digit == 4 {
        "4"
    } else if digit == 5 {
        "5"
    } else if digit == 6 {
        "6"
    } else if digit == 7 {
        "7"
    } else if digit == 8 {
        "8"
    } else {
        "9"
    };
    proof {
        assert(text@ =~= seq![digit_char(digit as nat)]);
    }
    text
}

/// `number` in decimal digits.
pub fn decimal_text(number: usize) -> (text: String)
    ensures
        text@ == decimal(number as nat),
    decreases number,
{
    if number < 10 {
        digit_text(number).to_owned()
    } else {
        let mut text = decimal_text(number / 10);
        text.append(digit_text(number % 10));
        proof {
            assert(text@ =~= decimal((number / 10) as nat).push(digit_char((number % 10) as nat)));
        }
        text
    }
}

/// The text of the string range from `least` to `greatest`.
pub fn range_string(least: usize, greatest: usize) -> (text: String)
    ensures
        text@ == range_text(least as nat, greatest as nat),
{
    let mut text = "STRING(".to_owned();
    text.append(decimal_text(least).as_str());
    if least != greatest {
        text.append(", ");
        text.append(decimal_text(greatest).as_str());
    }
    text.append(")");
    text
}

} // verus!
