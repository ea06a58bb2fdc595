use vstd::prelude::*;

use crate::domain::{names_view, ColumnType, SchemaView, SqlSchema};

verus! {

/// The model of the `concert_singer` schema.
pub open spec fn concert_singer_view() -> SchemaView {
    SchemaView {
        db_id: seq![99u8, 111u8, 110u8, 99u8, 101u8, 114u8, 116u8, 95u8, 115u8, 105u8, 110u8, 103u8, 101u8, 114u8],
        table_names: seq![
            seq![115u8, 116u8, 97u8, 100u8, 105u8, 117u8, 109u8],
            seq![115u8, 105u8, 110u8, 103u8, 101u8, 114u8],
            seq![99u8, 111u8, 110u8, 99u8, 101u8, 114u8, 116u8],
            seq![115u8, 105u8, 110u8, 103u8, 101u8, 114u8, 95u8, 105u8, 110u8, 95u8, 99u8, 111u8, 110u8, 99u8, 101u8, 114u8, 116u8],
        ],
        column_names: seq![
            seq![83u8, 116u8, 97u8, 100u8, 105u8, 117u8, 109u8, 95u8, 73u8, 68u8],
            seq![76u8, 111u8, 99u8, 97u8, 116u8, 105u8, 111u8, 110u8],
            seq![78u8, 97u8, 109u8, 101u8],
            seq![67u8, 97u8, 112u8, 97u8, 99u8, 105u8, 116u8, 121u8],
            seq![72u8, 105u8, 103u8, 104u8, 101u8, 115u8, 116u8],
            seq![76u8, 111u8, 119u8, 101u8, 115u8, 116u8],
            seq![65u8, 118u8, 101u8, 114u8, 97u8, 103u8, 101u8],
            seq![83u8, 105u8, 110u8, 103u8, 101u8, 114u8, 95u8, 73u8, 68u8],
            seq![78u8, 97u8, 109u8, 101u8],
            seq![67u8, 111u8, 117u8, 110u8, 116u8, 114u8, 121u8],
            seq![83u8, 111u8, 110u8, 103u8, 95u8, 78u8, 97u8, 109u8, 101u8],
            seq![83u8, 111u8, 110u8, 103u8, 95u8, 114u8, 101u8, 108u8, 101u8, 97u8, 115u8, 101u8, 95u8, 121u8, 101u8, 97u8, 114u8],
            seq![65u8, 103u8, 101u8],
            seq![73u8, 115u8, 95u8, 109u8, 97u8, 108u8, 101u8],
            seq![99u8, 111u8, 110u8, 99u8, 101u8, 114u8, 116u8, 95u8, 73u8, 68u8],
            seq![99u8, 111u8, 110u8, 99u8, 101u8, 114u8, 116u8, 95u8, 78u8, 97u8, 109u8, 101u8],
            seq![84u8, 104u8, 101u8, 109u8, 101u8],
            seq![83u8, 116u8, 97u8, 100u8, 105u8, 117u8, 109u8, 95u8, 73u8, 68u8],
            seq![89u8, 101u8, 97u8, 114u8],
            seq![99u8, 111u8, 110u8, 99u8, 101u8, 114u8, 116u8, 95u8, 73u8, 68u8],
            seq![83u8, 105u8, 110u8, 103u8, 101u8, 114u8, 95u8, 73u8, 68u8],
        ],
        column_types: seq![
            ColumnType::Number,
            ColumnType::Text,
            ColumnType::Text,
            ColumnType::Number,
            ColumnType::Number,
            ColumnType::Number,
            ColumnType::Number,
            ColumnType::Number,
            ColumnType::Text,
            ColumnType::Text,
            ColumnType::Text,
            ColumnType::Text,
            ColumnType::Number,
            ColumnType::Others,
            ColumnType::Number,
            ColumnType::Text,
            ColumnType::Text,
            ColumnType::Number,
            ColumnType::Number,
            ColumnType::Number,
            ColumnType::Number,
        ],
        table_to_columns: seq![
            (seq![115u8, 116u8, 97u8, 100u8, 105u8, 117u8, 109u8], seq![0usize, 1, 2, 3, 4, 5, 6]),
            (seq![115u8, 105u8, 110u8, 103u8, 101u8, 114u8], seq![7usize, 8, 9, 10, 11, 12, 13]),
            (seq![99u8, 111u8, 110u8, 99u8, 101u8, 114u8, 116u8], seq![14usize, 15, 16, 17, 18]),
            (seq![115u8, 105u8, 110u8, 103u8, 101u8, 114u8, 95u8, 105u8, 110u8, 95u8, 99u8, 111u8, 110u8, 99u8, 101u8, 114u8, 116u8], seq![19usize, 20]),
        ],
        column_to_table: seq![0usize, 0usize, 0usize, 0usize, 0usize, 0usize, 0usize, 1usize, 1usize, 1usize, 1usize, 1usize, 1usize, 1usize, 2usize, 2usize, 2usize, 2usize, 2usize, 3usize, 3usize],
        foreign_keys: seq![(17usize, 0usize), (20usize, 7usize), (19usize, 14usize)],
        primary_keys: seq![0usize, 7usize, 14usize, 19usize],
    }
}

/// The `concert_singer` schema: tables `stadium`, `singer`, `concert` and
/// `singer_in_concert`.
pub fn concert_singer() -> (r: SqlSchema)
    ensures
        r@ == concert_singer_view(),
        r.wf(),
{
    let mut table_names: Vec<Vec<u8>> = Vec::new();
    table_names.push(vec![115u8, 116u8, 97u8, 100u8, 105u8, 117u8, 109u8]);
    table_names.push(vec![115u8, 105u8, 110u8, 103u8, 101u8, 114u8]);
    table_names.push(vec![99u8, 111u8, 110u8, 99u8, 101u8, 114u8, 116u8]);
    table_names.push(vec![115u8, 105u8, 110u8, 103u8, 101u8, 114u8, 95u8, 105u8, 110u8, 95u8, 99u8, 111u8, 110u8, 99u8, 101u8, 114u8, 116u8]);
    let mut column_names: Vec<Vec<u8>> = Vec::new();
    column_names.push(vec![83u8, 116u8, 97u8, 100u8, 105u8, 117u8, 109u8, 95u8, 73u8, 68u8]);
    column_names.push(vec![76u8, 111u8, 99u8, 97u8, 116u8, 105u8, 111u8, 110u8]);
    column_names.push(vec![78u8, 97u8, 109u8, 101u8]);
    column_names.push(vec![67u8, 97u8, 112u8, 97u8, 99u8, 105u8, 116u8, 121u8]);
    column_names.push(vec![72u8, 105u8, 103u8, 104u8, 101u8, 115u8, 116u8]);
    column_names.push(vec![76u8, 111u8, 119u8, 101u8, 115u8, 116u8]);
    column_names.push(vec![65u8, 118u8, 101u8, 114u8, 97u8, 103u8, 101u8]);
    column_names.push(vec![83u8, 105u8, 110u8, 103u8, 101u8, 114u8, 95u8, 73u8, 68u8]);
    column_names.push(vec![78u8, 97u8, 109u8, 101u8]);
    column_names.push(vec![67u8, 111u8, 117u8, 110u8, 116u8, 114u8, 121u8]);
    column_names.push(vec![83u8, 111u8, 110u8, 103u8, 95u8, 78u8, 97u8, 109u8, 101u8]);
    column_names.push(vec![83u8, 111u8, 110u8, 103u8, 95u8, 114u8, 101u8, 108u8, 101u8, 97u8, 115u8, 101u8, 95u8, 121u8, 101u8, 97u8, 114u8]);
    column_names.push(vec![65u8, 103u8, 101u8]);
    column_names.push(vec![73u8, 115u8, 95u8, 109u8, 97u8, 108u8, 101u8]);
    column_names.push(vec![99u8, 111u8, 110u8, 99u8, 101u8, 114u8, 116u8, 95u8, 73u8, 68u8]);
    column_names.push(vec![99u8, 111u8, 110u8, 99u8, 101u8, 114u8, 116u8, 95u8, 78u8, 97u8, 109u8, 101u8]);
    column_names.push(vec![84u8, 104u8, 101u8, 109u8, 101u8]);
    column_names.push(vec![83u8, 116u8, 97u8, 100u8, 105u8, 117u8, 109u8, 95u8, 73u8, 68u8]);
    column_names.push(vec![89u8, 101u8, 97u8, 114u8]);
    column_names.push(vec![99u8, 111u8, 110u8, 99u8, 101u8, 114u8, 116u8, 95u8, 73u8, 68u8]);
    column_names.push(vec![83u8, 105u8, 110u8, 103u8, 101u8, 114u8, 95u8, 73u8, 68u8]);
    let column_types = vec![ColumnType::Number, ColumnType::Text, ColumnType::Text, ColumnType::Number, ColumnType::Number, ColumnType::Number, ColumnType::Number, ColumnType::Number, ColumnType::Text, ColumnType::Text, ColumnType::Text, ColumnType::Text, ColumnType::Number, ColumnType::Others, ColumnType::Number, ColumnType::Text, ColumnType::Text, ColumnType::Number, ColumnType::Number, ColumnType::Number, ColumnType::Number];
    let column_to_table: Vec<usize> = vec![0, 0, 0, 0, 0, 0, 0, 1, 1, 1, 1, 1, 1, 1, 2, 2, 2, 2, 2, 3, 3];
    let table_to_columns: Vec<(Vec<u8>, Vec<usize>)> = vec![
        (vec![115u8, 116u8, 97u8, 100u8, 105u8, 117u8, 109u8], vec![0, 1, 2, 3, 4, 5, 6]),
        (vec![115u8, 105u8, 110u8, 103u8, 101u8, 114u8], vec![7, 8, 9, 10, 11, 12, 13]),
        (vec![99u8, 111u8, 110u8, 99u8, 101u8, 114u8, 116u8], vec![14, 15, 16, 17, 18]),
        (vec![115u8, 105u8, 110u8, 103u8, 101u8, 114u8, 95u8, 105u8, 110u8, 95u8, 99u8, 111u8, 110u8, 99u8, 101u8, 114u8, 116u8], vec![19, 20]),
    ];
    let foreign_keys: Vec<(usize, usize)> = vec![(17, 0), (20, 7), (19, 14)];
    let primary_keys: Vec<usize> = vec![0, 7, 14, 19];
    let r = SqlSchema::new(
        vec![99u8, 111u8, 110u8, 99u8, 101u8, 114u8, 116u8, 95u8, 115u8, 105u8, 110u8, 103u8, 101u8, 114u8],
        table_names,
        column_names,
        column_types,
        column_to_table,
        table_to_columns,
        foreign_keys,
        primary_keys,
    );
    let ghost v = concert_singer_view();
    assert(r@.db_id =~= v.db_id);
    assert(r@.table_names =~~= v.table_names);
    assert(r@.column_names =~~= v.column_names);
    assert(r@.column_types =~= v.column_types);
    assert(r@.column_to_table =~= v.column_to_table);
    assert(r@.table_to_columns =~~= v.table_to_columns);
    assert(r@.foreign_keys =~= v.foreign_keys);
    assert(r@.primary_keys =~= v.primary_keys);
    r
}

} // verus!
