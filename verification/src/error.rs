use vstd::prelude::*;

use crate::sdo::{Exchange, Sdo};
use crate::text::{
    decimal, hexadecimal, push_decimal, push_hexadecimal, push_quoted, push_sdo, quotation, shown,
};

verus! {

/// Why an exchange came to nothing.
#[derive(Debug, PartialEq, Eq)]
pub enum Error {
    /// Fewer than eight bytes where an SDO should be.
    Short,
    /// A command specifier that neither direction uses.
    Specifier(u8),
    /// More bytes than the size field of an SDO can say.
    Oversize,
    /// More than the eight bytes that one frame carries.
    Overlong,
    /// No answer before the deadline.
    Silent,
    /// A target that does not name a node and an object.
    Target(String),
    /// The node ended the transfer, and why.
    Aborted(u32),
    /// The node answered, but not what was asked.
    OutOfTurn(Sdo),
}

/// The mathematical value of an [`Error`].
#[verifier::ext_equal]
pub enum Fault {
    Short,
    Specifier(u8),
    Oversize,
    Overlong,
    Silent,
    Target(Seq<char>),
    Aborted(u32),
    OutOfTurn(Exchange),
}

impl View for Error {
    type V = Fault;

    open spec fn view(&self) -> Fault {
        match self {
            Error::Short => Fault::Short,
            Error::Specifier(s) => Fault::Specifier(*s),
            Error::Oversize => Fault::Oversize,
            Error::Overlong => Fault::Overlong,
            Error::Silent => Fault::Silent,
            Error::Target(t) => Fault::Target(t@),
            Error::Aborted(code) => Fault::Aborted(*code),
            Error::OutOfTurn(answer) => Fault::OutOfTurn(answer@),
        }
    }
}

impl Fault {
    /// What a person is told.
    pub open spec fn told(self) -> Seq<char> {
        match self {
            Fault::Short => "an SDO shorter than eight bytes"@,
            Fault::Specifier(s) => "an SDO command specifier of "@ + decimal(s as nat),
            Fault::Oversize => "over what an SDO sizes"@,
            Fault::Overlong => "over what a frame carries"@,
            Fault::Silent => "the node did not answer before the deadline"@,
            Fault::Target(target) => quotation(target) + " is not <node>/0x<index>/<sub>"@,
            Fault::Aborted(code) => "the node aborted with 0x"@ + hexadecimal(code as nat, 8),
            Fault::OutOfTurn(answer) => "the node answered out of turn: "@ + shown(answer),
        }
    }
}

impl Error {
    /// What a person is told.
    pub fn message(&self) -> (message: String)
        ensures
            message@ == self@.told(),
    {
        let mut text = String::new();
        match self {
            Error::Short => text.append("an SDO shorter than eight bytes"),
            Error::Specifier(s) => {
                text.append("an SDO command specifier of ");
                push_decimal(&mut text, *s as u32);
            },
            Error::Oversize => text.append("over what an SDO sizes"),
            Error::Overlong => text.append("over what a frame carries"),
            Error::Silent => text.append("the node did not answer before the deadline"),
            Error::Target(target) => {
                push_quoted(&mut text, target.as_str());
                text.append(" is not <node>/0x<index>/<sub>");
            },
            Error::Aborted(code) => {
                text.append("the node aborted with 0x");
                push_hexadecimal(&mut text, *code, 8);
            },
            Error::OutOfTurn(answer) => {
                text.append("the node answered out of turn: ");
                push_sdo(&mut text, answer);
            },
        }
        assert(text@ =~= self@.told());
        text
    }
}

/// What a person is told names what went wrong and what it went wrong with: the
/// specifier in decimal, the target in quotes, the reason of an abort as eight
/// hexadecimal digits, an answer out of turn with all its fields.
pub proof fn law_messages_say_what_went_wrong(fault: Fault)
    ensures
        match fault {
            Fault::Short => fault.told() == "an SDO shorter than eight bytes"@,
            Fault::Specifier(specifier) => fault.told() == "an SDO command specifier of "@
                + decimal(specifier as nat),
            Fault::Oversize => fault.told() == "over what an SDO sizes"@,
            Fault::Overlong => fault.told() == "over what a frame carries"@,
            Fault::Silent => fault.told() == "the node did not answer before the deadline"@,
            Fault::Target(target) => fault.told() == quotation(target)
                + " is not <node>/0x<index>/<sub>"@,
            Fault::Aborted(code) => fault.told() == "the node aborted with 0x"@ + hexadecimal(
                code as nat,
                8,
            ),
            Fault::OutOfTurn(answer) => fault.told() == "the node answered out of turn: "@ + shown(
                answer,
            ),
        },
{
}

/// The value of an error says which one it is and what it is about.
pub proof fn law_value_of_an_error(error: Error)
    ensures
        match error {
            Error::Short => error@ == Fault::Short,
            Error::Specifier(specifier) => error@ == Fault::Specifier(specifier),
            Error::Oversize => error@ == Fault::Oversize,
            Error::Overlong => error@ == Fault::Overlong,
            Error::Silent => error@ == Fault::Silent,
            Error::Target(target) => error@ == Fault::Target(target@),
            Error::Aborted(code) => error@ == Fault::Aborted(code),
            Error::OutOfTurn(answer) => error@ == Fault::OutOfTurn(answer@),
        },
{
}

} // verus!
