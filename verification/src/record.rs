use csv::StringRecord;
use vstd::prelude::*;

verus! {

/// `csv::StringRecord`, one row of text fields. Nothing of its inside is
/// known here but what the items below say.
#[verifier::external_type_specification]
#[verifier::external_body]
pub struct ExStringRecord(csv::StringRecord);

/// The fields that a record holds, in order, each as its text.
pub uninterp spec fn record_fields(record: StringRecord) -> Seq<Seq<char>>;

/// `csv::StringRecord::new` gives a record without fields.
pub assume_specification[ StringRecord::new ]() -> (record: StringRecord)
    ensures
        record_fields(record) == Seq::<Seq<char>>::empty(),
;

/// `csv::StringRecord::get` gives the text of field `i`, and nothing where the
/// record has no such field.
pub assume_specification<'a>[ StringRecord::get ](record: &'a StringRecord, i: usize) -> (field:
    Option<&'a str>)
    ensures
        match field {
            Some(text) => i < record_fields(*record).len() && text@ == record_fields(*record)[i as int],
            None => i >= record_fields(*record).len(),
        },
;

/// `csv::StringRecord::push_field` adds one field with the given text after
/// those that the record holds; they stay as they are.
pub assume_specification[ StringRecord::push_field ](record: &mut StringRecord, field: &str)
    ensures
        record_fields(*final(record)) == record_fields(*old(record)).push(field@),
;

} // verus!
