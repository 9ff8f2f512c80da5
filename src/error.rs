use crate::node::NodeId;
use vstd::prelude::*;
use vstd::string::*;

verus! {

/// A recoverable failure of a tree-builder operation.
#[derive(Debug)]
pub enum TaskError {
    /// The target node exists but is not an element.
    NotAnElement(NodeId),
    /// No node has the target identity.
    NotFound(NodeId),
    /// The value of an `id` attribute breaks the rule for such values.
    InvalidAttributeValue(String),
}

/// Mathematical model of a task error.
pub enum ErrorModel {
    NotAnElement(NodeId),
    NotFound(NodeId),
    InvalidAttributeValue(Seq<char>),
}

impl View for TaskError {
    type V = ErrorModel;

    open spec fn view(&self) -> ErrorModel {
        match self {
            TaskError::NotAnElement(id) => ErrorModel::NotAnElement(*id),
            TaskError::NotFound(id) => ErrorModel::NotFound(*id),
            TaskError::InvalidAttributeValue(v) => ErrorModel::InvalidAttributeValue(v@),
        }
    }
}

pub open spec fn digit_char(d: nat) -> char {
    if d == 0 {
        '0'
    } else if d == 1 {
        '1'
    } else if d == 2 {
        '2'
    } else if d == 3 {
        '3'
    } else if d == 4 {
        '4'
    } else if d == 5 {
        '5'
    } else if d == 6 {
        '6'
    } else if d == 7 {
        '7'
    } else if d == 8 {
        '8'
    } else {
        '9'
    }
}

/// Decimal notation of `n`, without leading zeros.
pub open spec fn decimal(n: nat) -> Seq<char>
    decreases n,
{
    if n < 10 {
        seq![digit_char(n)]
    } else {
        decimal(n / 10).push(digit_char(n % 10))
    }
}

/// Relies on `usize`'s `Display` (through `to_string`): decimal notation.
#[verifier::external_body]
fn decimal_string(n: usize) -> (r: String)
    ensures
        r@ == decimal(n as nat),
{
    n.to_string()
}

/// The text of an error as callers see it.
pub open spec fn error_text(e: ErrorModel) -> Seq<char> {
    "document task error: "@ + match e {
        ErrorModel::NotAnElement(id) => "Node ID "@ + decimal(id.0 as nat) + " is not an element"@,
        ErrorModel::NotFound(id) => "Node ID "@ + decimal(id.0 as nat) + " not found"@,
        ErrorModel::InvalidAttributeValue(v) => "Attribute value '"@ + v
            + "' did not pass validation"@,
    }
}

impl TaskError {
    /// The text of this error.
    pub fn to_string(&self) -> (r: String)
        ensures
            r@ == error_text(self@),
    {
        let mut s = String::from_str("document task error: ");
        match self {
            TaskError::NotAnElement(id) => {
                s.append("Node ID ");
                s.append(decimal_string(id.0).as_str());
                s.append(" is not an element");
            },
            TaskError::NotFound(id) => {
                s.append("Node ID ");
                s.append(decimal_string(id.0).as_str());
                s.append(" not found");
            },
            TaskError::InvalidAttributeValue(v) => {
                s.append("Attribute value '");
                s.append(v.as_str());
                s.append("' did not pass validation");
            },
        }
        proof {
            assert(s@ =~= error_text(self@));
        }
        s
    }
}

} // verus!
