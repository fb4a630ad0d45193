use csv::StringRecord;
use vstd::prelude::*;

use crate::record::record_fields;
use crate::text::{chars_of, lowered, spells, to_lower, trim, trimmed};

verus! {

/// Why the header row of an input is not accepted.
#[derive(Debug, Clone, Copy, PartialEq, Eq, Structural)]
pub enum ReaderHeaderValidationError {
    NoHeaders,
    MissingHeaders,
    HeaderReadFailure,
}

/// The names that the first four columns of an input must have, in order.
pub open spec fn required_headers() -> Seq<Seq<char>> {
    seq!["type"@, "client"@, "tx"@, "amount"@]
}

/// The names of the columns of a report, in order.
pub open spec fn output_headers() -> Seq<Seq<char>> {
    seq!["client"@, "available"@, "held"@, "total"@, "locked"@]
}

/// Whether column `index` of a header row is named `name`, in whatever case
/// and with whatever white space around it.
pub open spec fn names_column(fields: Seq<Seq<char>>, index: int, name: Seq<char>) -> bool {
    0 <= index < fields.len() && lowered(trimmed(fields[index])) == name
}

/// Whether a header row starts with the required columns.
pub open spec fn has_required_headers(fields: Seq<Seq<char>>) -> bool {
    forall|index: int|
        0 <= index < required_headers().len() ==> names_column(
            fields,
            index,
            #[trigger] required_headers()[index],
        )
}

/// The verdict on an input's header row. `has_headers` says whether the input
/// is read with a header row at all; `headers` is the row, where reading it
/// succeeded.
pub open spec fn headers_verdict(has_headers: bool, headers: Option<Seq<Seq<char>>>) -> Result<
    (),
    ReaderHeaderValidationError,
> {
    if !has_headers {
        Err(ReaderHeaderValidationError::NoHeaders)
    } else {
        match headers {
            None => Err(ReaderHeaderValidationError::HeaderReadFailure),
            Some(fields) => if has_required_headers(fields) {
                Ok(())
            } else {
                Err(ReaderHeaderValidationError::MissingHeaders)
            },
        }
    }
}

/// The fields of the header row, where there is one.
pub open spec fn header_fields(headers: Option<&StringRecord>) -> Option<Seq<Seq<char>>> {
    match headers {
        Some(record) => Some(record_fields(*record)),
        None => None,
    }
}

fn column_is_named(headers: &StringRecord, index: usize, name: &str) -> (b: bool)
    ensures
        b == names_column(record_fields(*headers), index as int, name@),
{
    match headers.get(index) {
        Some(field) => spells(&to_lower(&trim(&chars_of(field))), name),
        None => false,
    }
}

/// Checks the header row of an input: it must be there, must have been read,
/// and must start with the columns `type`, `client`, `tx` and `amount`.
pub fn validate_headers(has_headers: bool, headers: Option<&StringRecord>) -> (result: Result<
    (),
    ReaderHeaderValidationError,
>)
    ensures
        result == headers_verdict(has_headers, header_fields(headers)),
{
    if !has_headers {
        return Err(ReaderHeaderValidationError::NoHeaders);
    }
    let Some(headers) = headers else {
        return Err(ReaderHeaderValidationError::HeaderReadFailure);
    };
    let proper = column_is_named(headers, 0, "type") && column_is_named(headers, 1, "client")
        && column_is_named(headers, 2, "tx") && column_is_named(headers, 3, "amount");
    proof {
        let fields = record_fields(*headers);
        let required = required_headers();
        assert(required[0] == "type"@ && required[1] == "client"@ && required[2] == "tx"@
            && required[3] == "amount"@);
        if proper {
            assert forall|index: int| 0 <= index < required.len() implies names_column(
                fields,
                index,
                #[trigger] required[index],
            ) by {}
        } else {
            assert(!names_column(fields, 0, required[0]) || !names_column(fields, 1, required[1])
                || !names_column(fields, 2, required[2]) || !names_column(
                fields,
                3,
                required[3],
            ));
        }
    }
    if proper {
        Ok(())
    } else {
        Err(ReaderHeaderValidationError::MissingHeaders)
    }
}

/// The header row of a report.
pub fn get_output_headers() -> (headers: StringRecord)
    ensures
        record_fields(headers) == output_headers(),
{
    let mut headers = StringRecord::new();
    headers.push_field("client");
    headers.push_field("available");
    headers.push_field("held");
    headers.push_field("total");
    headers.push_field("locked");
    proof {
        assert(record_fields(headers) =~= output_headers());
    }
    headers
}

} // verus!
