use liquid_ml::dataframe::{Column, Data, DataFrame, DataType, Row, Schema};
use liquid_ml::error::DFError;

fn schema() -> Schema {
    let mut s = Schema::new();
    s.add_column(DataType::Int, Some("id".to_string())).unwrap();
    s.add_column(DataType::String, Some("name".to_string())).unwrap();
    s.add_column(DataType::Bool, None).unwrap();
    s.add_column(DataType::Float, Some("score".to_string())).unwrap();
    s
}

fn filled() -> DataFrame {
    let mut df = DataFrame::new(schema());
    let mut row = Row::new(df.get_schema());
    row.set_int(0, 7);
    row.set_string(1, "ada".to_string());
    row.set_bool(2, true);
    row.set_float(3, 1.5f64.to_bits());
    df.add_row(&row);
    let mut row = Row::new(df.get_schema());
    row.set_int(0, -3);
    row.set_float(3, 0.25f64.to_bits());
    df.add_row(&row);
    df
}

#[test]
fn schema_names_are_unique() {
    let mut s = schema();
    assert_eq!(s.width(), 4);
    assert_eq!(s.length(), 0);
    assert_eq!(s.add_column(DataType::Int, Some("name".to_string())), Err(DFError::NameAlreadyExists));
    assert_eq!(s.width(), 4);
    assert_eq!(s.add_column(DataType::Int, None), Ok(()));
    assert_eq!(s.width(), 5);
    assert_eq!(s.col_idx("id"), Some(0));
    assert_eq!(s.col_idx("score"), Some(3));
    assert_eq!(s.col_idx("none"), None);
    assert_eq!(s.row_idx("id"), None);
}

#[test]
fn new_data_frame_has_empty_columns() {
    let df = DataFrame::new(schema());
    assert_eq!(df.ncols(), 4);
    assert_eq!(df.nrows(), 0);
    assert_eq!(
        df.data,
        vec![
            Column::Int(vec![]),
            Column::String(vec![]),
            Column::Bool(vec![]),
            Column::Float(vec![])
        ]
    );
    assert_eq!(df.get_schema().schema, schema().schema);
    assert_eq!(df.get_schema().col_names, schema().col_names);
    assert_eq!(df.get_col("name"), Some(1));
    assert_eq!(df.get_col("nope"), None);
    assert_eq!(df.get_row("name"), None);
}

#[test]
fn add_row_appends_to_every_column() {
    let df = filled();
    assert_eq!(df.data[0], Column::Int(vec![Some(7), Some(-3)]));
    assert_eq!(df.data[1], Column::String(vec![Some("ada".to_string()), None]));
    assert_eq!(df.data[2], Column::Bool(vec![Some(true), None]));
    assert_eq!(df.data[3], Column::Float(vec![Some(1.5f64.to_bits()), Some(0.25f64.to_bits())]));
    assert_eq!(df.data[0].len(), 2);
    assert_eq!(df.data[1].data_type(), DataType::String);
}

#[test]
fn get_reads_cells() {
    let df = filled();
    assert_eq!(df.get(0, 0), Data::Int(7));
    assert_eq!(df.get(0, 1), Data::Int(-3));
    assert_eq!(df.get(1, 0), Data::String("ada".to_string()));
    assert_eq!(df.get(1, 1), Data::Null);
    assert_eq!(df.get(2, 0), Data::Bool(true));
    assert_eq!(df.get(3, 1), Data::Float(0.25f64.to_bits()));
}

#[test]
fn setters_change_one_cell() {
    let mut df = filled();
    df.set_int(0, 1, 42);
    df.set_string(1, 1, "bob".to_string());
    df.set_bool(2, 1, false);
    df.set_float(3, 0, 2.0f64.to_bits());
    assert_eq!(df.data[0], Column::Int(vec![Some(7), Some(42)]));
    assert_eq!(df.data[1], Column::String(vec![Some("ada".to_string()), Some("bob".to_string())]));
    assert_eq!(df.data[2], Column::Bool(vec![Some(true), Some(false)]));
    assert_eq!(df.data[3], Column::Float(vec![Some(2.0f64.to_bits()), Some(0.25f64.to_bits())]));
}

#[test]
fn fill_row_copies_one_row() {
    let df = filled();
    let mut row = Row::new(df.get_schema());
    df.fill_row(0, &mut row);
    assert_eq!(
        row.data,
        vec![
            Data::Int(7),
            Data::String("ada".to_string()),
            Data::Bool(true),
            Data::Float(1.5f64.to_bits())
        ]
    );
    df.fill_row(1, &mut row);
    assert_eq!(
        row.data,
        vec![Data::Int(-3), Data::Null, Data::Null, Data::Float(0.25f64.to_bits())]
    );
}

#[test]
fn add_column_extends_the_schema_only() {
    let mut df = filled();
    df.add_column(Column::Int(vec![Some(1), Some(2)]), Some("extra".to_string()));
    assert_eq!(df.ncols(), 5);
    assert_eq!(df.get_col("extra"), Some(4));
    assert_eq!(df.data.len(), 4);
    df.add_column(Column::Bool(vec![]), Some("id".to_string()));
    assert_eq!(df.ncols(), 5);
}

#[test]
fn row_setters_and_null() {
    let mut row = Row::new(&schema());
    assert_eq!(row.data, vec![Data::Null, Data::Null, Data::Null, Data::Null]);
    row.set_int(0, 1);
    row.set_null(0);
    row.set_bool(2, false);
    assert_eq!(row.data, vec![Data::Null, Data::Null, Data::Bool(false), Data::Null]);
    assert_eq!(row.schema.schema, schema().schema);
    assert_eq!(Column::empty(DataType::Float), Column::Float(vec![]));
}
