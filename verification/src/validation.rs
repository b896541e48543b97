//! Checks that a schema may be the schema of a table.
use vstd::prelude::*;
use vstd::string::*;

use crate::column_mapping::ColumnMappingMode;
use crate::error::{DeltaResult, Error, ErrorView};
use crate::schema;
use crate::schema::{DataTypeView, FieldView, StructType};
use crate::text;

verus! {

/// Whether `c` may not occur in the name of a stored column.
pub open spec fn is_invalid_char(c: char) -> bool {
    c == ' ' || c == ',' || c == ';' || c == '{' || c == '}' || c == '(' || c == ')' || c == '\n'
        || c == '\t' || c == '='
}

/// Whether `name` may be the name of a stored column.
pub open spec fn is_valid_name(name: Seq<char>) -> bool {
    forall|i: int| 0 <= i < name.len() ==> !is_invalid_char(#[trigger] name[i])
}

/// Whether field `i` is the first one in the list whose name has an invalid character.
pub open spec fn is_first_invalid(fields: Seq<FieldView>, i: int) -> bool {
    &&& 0 <= i < fields.len()
    &&& !is_valid_name(fields[i].name)
    &&& forall|j: int| 0 <= j < i ==> is_valid_name(#[trigger] fields[j].name)
}

/// The error that refuses `name` as the name of a stored column.
pub open spec fn invalid_name(name: Seq<char>) -> ErrorView {
    ErrorView::Schema(
        "Column name '"@ + name
            + "' contains an invalid character: a space, a tab, a line break, or one of ,;{}()="@,
    )
}

/// The error that refuses a schema in which names clash.
pub open spec fn clashing_names() -> ErrorView {
    ErrorView::Schema("The schema has sibling columns whose names differ at most in case"@)
}

/// What is wrong with a schema, if anything.
///
/// Where columns are stored under their names, each name, at any depth, must be a valid one. And
/// no struct may have two fields whose names differ at most in case.
pub open spec fn schema_problem(schema: Seq<FieldView>, mode: ColumnMappingMode) -> Option<
    ErrorView,
> {
    let all = FieldView::all_fields(schema);
    if mode == ColumnMappingMode::NoMapping && exists|i: int| is_first_invalid(all, i) {
        Some(invalid_name(all[choose|i: int| is_first_invalid(all, i)].name))
    } else if !DataTypeView::Struct(schema).unique_names() {
        Some(clashing_names())
    } else {
        None
    }
}

fn has_valid_name(name: &str) -> (valid: bool)
    ensures
        valid == is_valid_name(name@),
{
    let n: usize = name.unicode_len();
    let mut i: usize = 0;
    while i < n
        invariant
            n == name@.len(),
            i <= n,
            forall|j: int| 0 <= j < i ==> !is_invalid_char(#[trigger] name@[j]),
        decreases n - i,
    {
        let c = name.get_char(i);
        if c == ' ' || c == ',' || c == ';' || c == '{' || c == '}' || c == '(' || c == ')' || c
            == '\n' || c == '\t' || c == '=' {
            assert(is_invalid_char(name@[i as int]));
            return false;
        }
        i = i + 1;
    }
    true
}

/// Checks that a schema may be the schema of a table.
///
/// # Errors
///
/// Refuses what [`schema_problem`] finds wrong.
pub fn validate_schema(schema: &StructType, mode: ColumnMappingMode) -> (result: DeltaResult<()>)
    ensures
        match result {
            Ok(()) => schema_problem(schema@, mode) is None,
            Err(e) => schema_problem(schema@, mode) == Some(e@),
        },
{
    let ghost all = FieldView::all_fields(schema@);
    if mode == ColumnMappingMode::NoMapping {
        let fields = schema.all_fields();
        for i in 0..fields.len()
            invariant
                all == FieldView::all_fields(schema@),
                all == schema::ref_views(fields@),
                mode == ColumnMappingMode::NoMapping,
                forall|j: int| 0 <= j < i ==> is_valid_name(#[trigger] all[j].name),
        {
            assert(all[i as int] == fields@[i as int]@);
            let name = fields[i].name.as_str();
            if !has_valid_name(name) {
                proof {
                    assert(is_first_invalid(all, i as int));
                    let k = choose|k: int| is_first_invalid(all, k);
                    assert(k == i) by {
                        assert(is_first_invalid(all, k));
                        if k < i {
                            assert(is_valid_name(all[k].name));
                        }
                        if i < k {
                            assert(is_valid_name(all[i as int].name));
                        }
                    }
                }
                return Err(
                    Error::Schema(
                        text::join3(
                            "Column name '",
                            name,
                            "' contains an invalid character: a space, a tab, a line break, or one of ,;{}()=",
                        ),
                    ),
                );
            }
        }
        assert forall|i: int| !is_first_invalid(all, i) by {
            if 0 <= i < all.len() {
                assert(is_valid_name(all[i].name));
            }
        }
    }
    if !schema.has_unique_names() {
        return Err(
            Error::Schema(
                "The schema has sibling columns whose names differ at most in case".to_string(),
            ),
        );
    }
    Ok(())
}

} // verus!
