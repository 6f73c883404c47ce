//! A data frame: columns of optional cells under a schema.

use vstd::prelude::*;
use crate::error::DFError;

verus! {

/// The type of a column.
#[derive(Debug, Clone, Copy, PartialEq, Eq, Structural)]
pub enum DataType {
    String,
    Float,
    Int,
    Bool,
}

/// One cell. A float is held by its bits.
#[derive(Debug, Clone, PartialEq, Eq)]
pub enum Data {
    String(String),
    Int(i64),
    Float(u64),
    Bool(bool),
    Null,
}

/// One column. A float is held by its bits.
#[derive(Debug, Clone, PartialEq, Eq)]
pub enum Column {
    Int(Vec<Option<i64>>),
    Bool(Vec<Option<bool>>),
    Float(Vec<Option<u64>>),
    String(Vec<Option<String>>),
}

impl Column {
    /// The type of the cells of this column.
    pub open spec fn kind(&self) -> DataType {
        match self {
            Column::Int(_) => DataType::Int,
            Column::Bool(_) => DataType::Bool,
            Column::Float(_) => DataType::Float,
            Column::String(_) => DataType::String,
        }
    }

    pub open spec fn spec_len(&self) -> nat {
        match self {
            Column::Int(c) => c@.len(),
            Column::Bool(c) => c@.len(),
            Column::Float(c) => c@.len(),
            Column::String(c) => c@.len(),
        }
    }

    /// The cell in the given row: `Null` where no value is set.
    pub open spec fn cell(&self, row: int) -> Data {
        match self {
            Column::Int(c) => match c@[row] {
                Some(x) => Data::Int(x),
                None => Data::Null,
            },
            Column::Bool(c) => match c@[row] {
                Some(x) => Data::Bool(x),
                None => Data::Null,
            },
            Column::Float(c) => match c@[row] {
                Some(x) => Data::Float(x),
                None => Data::Null,
            },
            Column::String(c) => match c@[row] {
                Some(x) => Data::String(x),
                None => Data::Null,
            },
        }
    }

    /// The cells of this column, from the first row to the last.
    pub open spec fn cells(&self) -> Seq<Data> {
        Seq::new(self.spec_len(), |row: int| self.cell(row))
    }

    /// The empty column of the given type.
    pub fn empty(data_type: DataType) -> (col: Column)
        ensures
            col.kind() == data_type,
            col.spec_len() == 0,
    {
        match data_type {
            DataType::Bool => Column::Bool(Vec::new()),
            DataType::Int => Column::Int(Vec::new()),
            DataType::Float => Column::Float(Vec::new()),
            DataType::String => Column::String(Vec::new()),
        }
    }

    /// The type of the cells of this column.
    pub fn data_type(&self) -> (res: DataType)
        ensures
            res == self.kind(),
    {
        match self {
            Column::Int(_) => DataType::Int,
            Column::Bool(_) => DataType::Bool,
            Column::Float(_) => DataType::Float,
            Column::String(_) => DataType::String,
        }
    }

    pub fn len(&self) -> (n: usize)
        ensures
            n == self.spec_len(),
    {
        match self {
            Column::Int(c) => c.len(),
            Column::Bool(c) => c.len(),
            Column::Float(c) => c.len(),
            Column::String(c) => c.len(),
        }
    }
}

/// A cell can stand in a column of the given type: a missing value in any.
pub open spec fn fits(data: Data, data_type: DataType) -> bool {
    match data {
        Data::String(_) => data_type == DataType::String,
        Data::Int(_) => data_type == DataType::Int,
        Data::Float(_) => data_type == DataType::Float,
        Data::Bool(_) => data_type == DataType::Bool,
        Data::Null => true,
    }
}

fn copy_names(names: &Vec<Option<String>>) -> (res: Vec<Option<String>>)
    ensures
        res@ == names@,
{
    let mut res: Vec<Option<String>> = Vec::new();
    let mut i: usize = 0;
    while i < names.len()
        invariant
            i <= names@.len(),
            res@ == names@.take(i as int),
        decreases names@.len() - i,
    {
        let name = match &names[i] {
            Some(s) => Some(s.clone()),
            None => None,
        };
        res.push(name);
        i += 1;
        assert(names@.take(i as int) =~= names@.take(i - 1).push(names@[i - 1]));
    }
    assert(names@.take(i as int) =~= names@);
    res
}

fn copy_types(types: &Vec<DataType>) -> (res: Vec<DataType>)
    ensures
        res@ == types@,
{
    let mut res: Vec<DataType> = Vec::new();
    let mut i: usize = 0;
    while i < types.len()
        invariant
            i <= types@.len(),
            res@ == types@.take(i as int),
        decreases types@.len() - i,
    {
        res.push(types[i]);
        i += 1;
        assert(types@.take(i as int) =~= types@.take(i - 1).push(types@[i - 1]));
    }
    assert(types@.take(i as int) =~= types@);
    res
}

/// The entry holds the name.
pub open spec fn is_name(entry: Option<String>, name: Seq<char>) -> bool {
    match entry {
        Some(s) => s@ == name,
        None => false,
    }
}

/// `i` is the first index at which `name` stands in `names`.
pub open spec fn is_first(names: Seq<Option<String>>, name: Seq<char>, i: int) -> bool {
    &&& 0 <= i < names.len()
    &&& is_name(names[i], name)
    &&& forall|j: int| 0 <= j < i ==> !is_name(#[trigger] names[j], name)
}

/// The first index at which `name` stands in `names`, if it stands there.
pub open spec fn index_of_name(names: Seq<Option<String>>, name: Seq<char>) -> Option<int> {
    if exists|i: int| 0 <= i < names.len() && is_name(#[trigger] names[i], name) {
        Some(choose|i: int| is_first(names, name, i))
    } else {
        None
    }
}

/// The name is given and already stands in `names`.
pub open spec fn name_taken(names: Seq<Option<String>>, name: Option<String>) -> bool {
    match name {
        Some(s) => index_of_name(names, s@) is Some,
        None => false,
    }
}

fn find_name(names: &Vec<Option<String>>, name: &str) -> (res: Option<usize>)
    ensures
        match res {
            Some(i) => index_of_name(names@, name@) == Some(i as int) && i < names@.len(),
            None => index_of_name(names@, name@) is None,
        },
{
    let wanted: String = name.to_owned();
    let mut i: usize = 0;
    while i < names.len()
        invariant
            i <= names@.len(),
            wanted@ == name@,
            forall|j: int| 0 <= j < i ==> !is_name(#[trigger] names@[j], name@),
        decreases names@.len() - i,
    {
        let hit = match &names[i] {
            Some(s) => *s == wanted,
            None => false,
        };
        if hit {
            proof {
                assert(is_first(names@, name@, i as int));
                let k = choose|k: int| is_first(names@, name@, k);
                assert(is_name(names@[k], name@));
                assert(is_name(names@[i as int], name@));
                assert(k == i);
            }
            return Some(i);
        }
        i += 1;
    }
    None
}

/// The types and the names of the columns, and the names of the rows.
#[derive(Debug, Clone, PartialEq, Eq)]
pub struct Schema {
    pub schema: Vec<DataType>,
    pub col_names: Vec<Option<String>>,
    pub row_names: Vec<Option<String>>,
}

impl Schema {
    /// Every column has its place in the list of names.
    pub open spec fn wf(&self) -> bool {
        self.col_names@.len() == self.schema@.len()
    }

    /// The schema without columns and rows.
    pub fn new() -> (s: Schema)
        ensures
            s.schema@ == Seq::<DataType>::empty(),
            s.col_names@ == Seq::<Option<String>>::empty(),
            s.row_names@ == Seq::<Option<String>>::empty(),
            s.wf(),
    {
        Schema { schema: Vec::new(), col_names: Vec::new(), row_names: Vec::new() }
    }

    /// Adds a column of the given type. A name that another column has is
    /// refused, and the schema stays as it is.
    pub fn add_column(&mut self, data_type: DataType, name: Option<String>) -> (res: Result<
        (),
        DFError,
    >)
        ensures
            match res {
                Ok(_) => {
                    &&& !name_taken(old(self).col_names@, name)
                    &&& final(self).schema@ == old(self).schema@.push(data_type)
                    &&& final(self).col_names@ == old(self).col_names@.push(name)
                    &&& final(self).row_names == old(self).row_names
                },
                Err(e) => {
                    &&& e == DFError::NameAlreadyExists
                    &&& name_taken(old(self).col_names@, name)
                    &&& *final(self) == *old(self)
                },
            },
            old(self).wf() ==> final(self).wf(),
    {
        let taken = match &name {
            Some(s) => find_name(&self.col_names, s.as_str()).is_some(),
            None => false,
        };
        if taken {
            return Err(DFError::NameAlreadyExists);
        }
        self.schema.push(data_type);
        self.col_names.push(name);
        Ok(())
    }

    /// The index of the column with the given name.
    pub fn col_idx(&self, col_name: &str) -> (res: Option<usize>)
        ensures
            match res {
                Some(i) => index_of_name(self.col_names@, col_name@) == Some(i as int),
                None => index_of_name(self.col_names@, col_name@) is None,
            },
    {
        find_name(&self.col_names, col_name)
    }

    /// The index of the row with the given name.
    pub fn row_idx(&self, row_name: &str) -> (res: Option<usize>)
        ensures
            match res {
                Some(i) => index_of_name(self.row_names@, row_name@) == Some(i as int),
                None => index_of_name(self.row_names@, row_name@) is None,
            },
    {
        find_name(&self.row_names, row_name)
    }

    /// The number of columns.
    pub fn width(&self) -> (n: usize)
        ensures
            n == self.schema@.len(),
    {
        self.schema.len()
    }

    /// The number of rows that the schema knows of.
    pub fn length(&self) -> (n: usize)
        ensures
            n == self.row_names@.len(),
    {
        self.row_names.len()
    }
}

/// One row of cells under a schema.
#[derive(Debug, Clone, PartialEq, Eq)]
pub struct Row {
    pub schema: Schema,
    pub data: Vec<Data>,
}

impl Row {
    /// The row has a cell for each column of its schema.
    pub open spec fn wf(&self) -> bool {
        self.data@.len() == self.schema.schema@.len()
    }

    /// The row of missing values under a copy of the given schema.
    pub fn new(schema: &Schema) -> (row: Row)
        ensures
            row.schema.schema@ == schema.schema@,
            row.schema.col_names@ == schema.col_names@,
            row.schema.row_names@ == Seq::<Option<String>>::empty(),
            row.data@ == Seq::new(schema.schema@.len(), |i: int| Data::Null),
            row.wf(),
    {
        let mut data: Vec<Data> = Vec::new();
        let mut i: usize = 0;
        while i < schema.schema.len()
            invariant
                i <= schema.schema@.len(),
                data@ == Seq::new(i as nat, |i: int| Data::Null),
            decreases schema.schema@.len() - i,
        {
            data.push(Data::Null);
            i += 1;
            assert(data@ =~= Seq::new(i as nat, |i: int| Data::Null));
        }
        Row {
            schema: Schema {
                schema: copy_types(&schema.schema),
                col_names: copy_names(&schema.col_names),
                row_names: Vec::new(),
            },
            data,
        }
    }

    fn put(&mut self, col_idx: usize, data: Data)
        requires
            col_idx < old(self).data@.len(),
        ensures
            final(self).data@ == old(self).data@.update(col_idx as int, data),
            final(self).schema == old(self).schema,
    {
        self.data.set(col_idx, data);
    }

    pub fn set_int(&mut self, col_idx: usize, data: i64)
        requires
            col_idx < old(self).data@.len(),
            col_idx < old(self).schema.schema@.len(),
            old(self).schema.schema@[col_idx as int] == DataType::Int,
        ensures
            final(self).data@ == old(self).data@.update(col_idx as int, Data::Int(data)),
            final(self).schema == old(self).schema,
    {
        self.put(col_idx, Data::Int(data));
    }

    /// Sets a float cell, given by its bits.
    pub fn set_float(&mut self, col_idx: usize, data: u64)
        requires
            col_idx < old(self).data@.len(),
            col_idx < old(self).schema.schema@.len(),
            old(self).schema.schema@[col_idx as int] == DataType::Float,
        ensures
            final(self).data@ == old(self).data@.update(col_idx as int, Data::Float(data)),
            final(self).schema == old(self).schema,
    {
        self.put(col_idx, Data::Float(data));
    }

    pub fn set_bool(&mut self, col_idx: usize, data: bool)
        requires
            col_idx < old(self).data@.len(),
            col_idx < old(self).schema.schema@.len(),
            old(self).schema.schema@[col_idx as int] == DataType::Bool,
        ensures
            final(self).data@ == old(self).data@.update(col_idx as int, Data::Bool(data)),
            final(self).schema == old(self).schema,
    {
        self.put(col_idx, Data::Bool(data));
    }

    pub fn set_string(&mut self, col_idx: usize, data: String)
        requires
            col_idx < old(self).data@.len(),
            col_idx < old(self).schema.schema@.len(),
            old(self).schema.schema@[col_idx as int] == DataType::String,
        ensures
            final(self).data@ == old(self).data@.update(col_idx as int, Data::String(data)),
            final(self).schema == old(self).schema,
    {
        self.put(col_idx, Data::String(data));
    }

    pub fn set_null(&mut self, col_idx: usize)
        requires
            col_idx < old(self).data@.len(),
        ensures
            final(self).data@ == old(self).data@.update(col_idx as int, Data::Null),
            final(self).schema == old(self).schema,
    {
        self.put(col_idx, Data::Null);
    }
}

/// The columns `after` are the columns `before` but for one cell, which
/// holds `data`.
pub open spec fn cell_set(
    before: Seq<Column>,
    after: Seq<Column>,
    col_idx: int,
    row_idx: int,
    data: Data,
) -> bool {
    &&& after.len() == before.len()
    &&& forall|j: int| 0 <= j < before.len() && j != col_idx ==> after[j] == before[j]
    &&& after[col_idx].kind() == before[col_idx].kind()
    &&& after[col_idx].cells() == before[col_idx].cells().update(row_idx, data)
}

/// Adds `data` at the end of the column.
fn push_cell(col: &mut Column, data: &Data)
    requires
        fits(*data, old(col).kind()),
    ensures
        final(col).kind() == old(col).kind(),
        final(col).cells() == old(col).cells().push(*data),
{
    match col {
        Column::Int(l) => {
            match data {
                Data::Int(n) => l.push(Some(*n)),
                _ => l.push(None),
            }
        },
        Column::Float(l) => {
            match data {
                Data::Float(n) => l.push(Some(*n)),
                _ => l.push(None),
            }
        },
        Column::Bool(l) => {
            match data {
                Data::Bool(n) => l.push(Some(*n)),
                _ => l.push(None),
            }
        },
        Column::String(l) => {
            match data {
                Data::String(n) => l.push(Some(n.clone())),
                _ => l.push(None),
            }
        },
    }
    assert(col.cells() =~= old(col).cells().push(*data));
}

/// Columns of data under a schema.
#[derive(Debug, Clone, PartialEq, Eq)]
pub struct DataFrame {
    /// The schema of this data frame.
    pub schema: Schema,
    /// The columns of this data frame.
    pub data: Vec<Column>,
}

impl DataFrame {
    /// Every column that holds data has the type that the schema gives it.
    /// The schema may be ahead of the data by columns that were added to it.
    pub open spec fn wf(&self) -> bool {
        &&& self.data@.len() <= self.schema.schema@.len()
        &&& forall|i: int|
            0 <= i < self.data@.len() ==> (#[trigger] self.data@[i]).kind()
                == self.schema.schema@[i]
    }

    /// The empty data frame with the columns of the given schema.
    pub fn new(s: Schema) -> (df: DataFrame)
        ensures
            df.schema.schema@ == s.schema@,
            df.schema.col_names@ == s.col_names@,
            df.schema.row_names@ == Seq::<Option<String>>::empty(),
            df.data@.len() == s.schema@.len(),
            forall|i: int| 0 <= i < df.data@.len() ==> (#[trigger] df.data@[i]).spec_len() == 0,
            df.wf(),
    {
        let mut data: Vec<Column> = Vec::new();
        let mut i: usize = 0;
        while i < s.schema.len()
            invariant
                i <= s.schema@.len(),
                data@.len() == i,
                forall|j: int|
                    0 <= j < i ==> (#[trigger] data@[j]).kind() == s.schema@[j] && data@[j].spec_len()
                        == 0,
            decreases s.schema@.len() - i,
        {
            data.push(Column::empty(s.schema[i]));
            i += 1;
        }
        let schema = Schema {
            schema: copy_types(&s.schema),
            col_names: copy_names(&s.col_names),
            row_names: Vec::new(),
        };
        DataFrame { schema, data }
    }

    pub fn get_schema(&self) -> (res: &Schema)
        ensures
            *res == self.schema,
    {
        &self.schema
    }

    /// Enters a column of the type of `col` into the schema, under `name`
    /// unless another column has that name. The data is left as it is.
    pub fn add_column(&mut self, col: Column, name: Option<String>)
        ensures
            final(self).data == old(self).data,
            final(self).schema.row_names == old(self).schema.row_names,
            if name_taken(old(self).schema.col_names@, name) {
                final(self).schema == old(self).schema
            } else {
                &&& final(self).schema.schema@ == old(self).schema.schema@.push(col.kind())
                &&& final(self).schema.col_names@ == old(self).schema.col_names@.push(name)
            },
            old(self).wf() ==> final(self).wf(),
    {
        let _ = self.schema.add_column(col.data_type(), name);
    }

    /// The cell at the given column and row.
    pub fn get(&self, col_idx: usize, row_idx: usize) -> (res: Data)
        requires
            col_idx < self.data@.len(),
            row_idx < self.data@[col_idx as int].spec_len(),
        ensures
            res == self.data@[col_idx as int].cell(row_idx as int),
    {
        match &self.data[col_idx] {
            Column::Int(col) => match &col[row_idx] {
                Some(data) => Data::Int(*data),
                None => Data::Null,
            },
            Column::Bool(col) => match &col[row_idx] {
                Some(data) => Data::Bool(*data),
                None => Data::Null,
            },
            Column::Float(col) => match &col[row_idx] {
                Some(data) => Data::Float(*data),
                None => Data::Null,
            },
            Column::String(col) => match &col[row_idx] {
                Some(data) => Data::String(data.clone()),
                None => Data::Null,
            },
        }
    }

    /// The index of the column with the given name.
    pub fn get_col(&self, col_name: &str) -> (res: Option<usize>)
        ensures
            match res {
                Some(i) => index_of_name(self.schema.col_names@, col_name@) == Some(i as int),
                None => index_of_name(self.schema.col_names@, col_name@) is None,
            },
    {
        self.schema.col_idx(col_name)
    }

    /// The index of the row with the given name.
    pub fn get_row(&self, row_name: &str) -> (res: Option<usize>)
        ensures
            match res {
                Some(i) => index_of_name(self.schema.row_names@, row_name@) == Some(i as int),
                None => index_of_name(self.schema.row_names@, row_name@) is None,
            },
    {
        self.schema.row_idx(row_name)
    }

    pub fn set_int(&mut self, col_idx: usize, row_idx: usize, data: i64)
        requires
            col_idx < old(self).data@.len(),
            old(self).data@[col_idx as int] is Int,
            col_idx < old(self).schema.schema@.len(),
            old(self).schema.schema@[col_idx as int] == DataType::Int,
            row_idx < old(self).data@[col_idx as int].spec_len(),
        ensures
            final(self).schema == old(self).schema,
            cell_set(
                old(self).data@,
                final(self).data@,
                col_idx as int,
                row_idx as int,
                Data::Int(data),
            ),
            old(self).wf() ==> final(self).wf(),
    {
        match &mut self.data[col_idx] {
            Column::Int(col) => {
                col[row_idx] = Some(data);
            },
            _ => {},
        }
        assert(self.data@[col_idx as int]->Int_0@ == old(self).data@[col_idx as int]->Int_0@.update(
            row_idx as int,
            Some(data),
        ));
        assert(self.data@[col_idx as int].cells() =~= old(self).data@[col_idx as int].cells().update(
            row_idx as int,
            Data::Int(data),
        ));
    }

    /// Sets a float cell, given by its bits.
    pub fn set_float(&mut self, col_idx: usize, row_idx: usize, data: u64)
        requires
            col_idx < old(self).data@.len(),
            old(self).data@[col_idx as int] is Float,
            col_idx < old(self).schema.schema@.len(),
            old(self).schema.schema@[col_idx as int] == DataType::Float,
            row_idx < old(self).data@[col_idx as int].spec_len(),
        ensures
            final(self).schema == old(self).schema,
            cell_set(
                old(self).data@,
                final(self).data@,
                col_idx as int,
                row_idx as int,
                Data::Float(data),
            ),
            old(self).wf() ==> final(self).wf(),
    {
        match &mut self.data[col_idx] {
            Column::Float(col) => {
                col[row_idx] = Some(data);
            },
            _ => {},
        }
        assert(self.data@[col_idx as int]->Float_0@ == old(self).data@[col_idx as int]->Float_0@.update(
            row_idx as int,
            Some(data),
        ));
        assert(self.data@[col_idx as int].cells() =~= old(self).data@[col_idx as int].cells().update(
            row_idx as int,
            Data::Float(data),
        ));
    }

    pub fn set_bool(&mut self, col_idx: usize, row_idx: usize, data: bool)
        requires
            col_idx < old(self).data@.len(),
            old(self).data@[col_idx as int] is Bool,
            col_idx < old(self).schema.schema@.len(),
            old(self).schema.schema@[col_idx as int] == DataType::Bool,
            row_idx < old(self).data@[col_idx as int].spec_len(),
        ensures
            final(self).schema == old(self).schema,
            cell_set(
                old(self).data@,
                final(self).data@,
                col_idx as int,
                row_idx as int,
                Data::Bool(data),
            ),
            old(self).wf() ==> final(self).wf(),
    {
        match &mut self.data[col_idx] {
            Column::Bool(col) => {
                col[row_idx] = Some(data);
            },
            _ => {},
        }
        assert(self.data@[col_idx as int]->Bool_0@ == old(self).data@[col_idx as int]->Bool_0@.update(
            row_idx as int,
            Some(data),
        ));
        assert(self.data@[col_idx as int].cells() =~= old(self).data@[col_idx as int].cells().update(
            row_idx as int,
            Data::Bool(data),
        ));
    }

    pub fn set_string(&mut self, col_idx: usize, row_idx: usize, data: String)
        requires
            col_idx < old(self).data@.len(),
            old(self).data@[col_idx as int] is String,
            col_idx < old(self).schema.schema@.len(),
            old(self).schema.schema@[col_idx as int] == DataType::String,
            row_idx < old(self).data@[col_idx as int].spec_len(),
        ensures
            final(self).schema == old(self).schema,
            cell_set(
                old(self).data@,
                final(self).data@,
                col_idx as int,
                row_idx as int,
                Data::String(data),
            ),
            old(self).wf() ==> final(self).wf(),
    {
        match &mut self.data[col_idx] {
            Column::String(col) => {
                col[row_idx] = Some(data);
            },
            _ => {},
        }
        assert(self.data@[col_idx as int]->String_0@ == old(self).data@[col_idx as int]->String_0@.update(
            row_idx as int,
            Some(data),
        ));
        assert(self.data@[col_idx as int].cells() =~= old(self).data@[col_idx as int].cells().update(
            row_idx as int,
            Data::String(data),
        ));
    }

    /// Sets the cells of `row` to the values that the columns hold in the
    /// row `idx` of this data frame.
    pub fn fill_row(&self, idx: usize, row: &mut Row)
        requires
            self.data@.len() <= old(row).data@.len(),
            self.data@.len() <= old(row).schema.schema@.len(),
            forall|c: int|
                0 <= c < self.data@.len() ==> idx < (#[trigger] self.data@[c]).spec_len()
                    && old(row).schema.schema@[c] == self.data@[c].kind(),
        ensures
            final(row).schema == old(row).schema,
            final(row).data@.len() == old(row).data@.len(),
            forall|c: int|
                0 <= c < self.data@.len() ==> (#[trigger] final(row).data@[c]) == self.data@[c].cell(
                    idx as int,
                ),
            forall|c: int|
                self.data@.len() <= c < old(row).data@.len() ==> (#[trigger] final(row).data@[c])
                    == old(row).data@[c],
    {
        let mut c_idx: usize = 0;
        while c_idx < self.data.len()
            invariant
                c_idx <= self.data@.len(),
                self.data@.len() <= row.data@.len(),
                row.schema == old(row).schema,
                row.data@.len() == old(row).data@.len(),
                self.data@.len() <= old(row).schema.schema@.len(),
                forall|c: int|
                    0 <= c < self.data@.len() ==> idx < (#[trigger] self.data@[c]).spec_len()
                        && old(row).schema.schema@[c] == self.data@[c].kind(),
                forall|c: int|
                    0 <= c < c_idx ==> (#[trigger] row.data@[c]) == self.data@[c].cell(idx as int),
                forall|c: int|
                    c_idx <= c < row.data@.len() ==> (#[trigger] row.data@[c]) == old(row).data@[c],
            decreases self.data@.len() - c_idx,
        {
            assert(idx < self.data@[c_idx as int].spec_len());
            match &self.data[c_idx] {
                Column::Int(c) => match &c[idx] {
                    Some(x) => row.set_int(c_idx, *x),
                    None => row.set_null(c_idx),
                },
                Column::Float(c) => match &c[idx] {
                    Some(x) => row.set_float(c_idx, *x),
                    None => row.set_null(c_idx),
                },
                Column::Bool(c) => match &c[idx] {
                    Some(x) => row.set_bool(c_idx, *x),
                    None => row.set_null(c_idx),
                },
                Column::String(c) => match &c[idx] {
                    Some(x) => row.set_string(c_idx, x.clone()),
                    None => row.set_null(c_idx),
                },
            }
            c_idx += 1;
        }
    }

    /// Adds the cells of `row` at the end of the columns: as many as both
    /// the row and the data frame hold.
    pub fn add_row(&mut self, row: &Row)
        requires
            row.schema.schema@ == old(self).schema.schema@,
            forall|i: int|
                0 <= i < row.data@.len() && i < old(self).data@.len() ==> fits(
                    #[trigger] row.data@[i],
                    old(self).data@[i].kind(),
                ),
        ensures
            final(self).schema == old(self).schema,
            final(self).data@.len() == old(self).data@.len(),
            forall|i: int|
                0 <= i < old(self).data@.len() ==> (#[trigger] final(self).data@[i]).kind() == old(self).data@[i].kind(),
            forall|i: int|
                0 <= i < row.data@.len() && i < old(self).data@.len() ==> (#[trigger] final(self).data@[i]).cells() == old(self).data@[i].cells().push(row.data@[i]),
            forall|i: int|
                row.data@.len() <= i < old(self).data@.len() ==> (#[trigger] final(self).data@[i])
                    == old(self).data@[i],
            old(self).wf() ==> final(self).wf(),
    {
        let n: usize = if row.data.len() < self.data.len() {
            row.data.len()
        } else {
            self.data.len()
        };
        let mut i: usize = 0;
        while i < n
            invariant
                i <= n,
                n <= row.data@.len(),
                n <= self.data@.len(),
                n == row.data@.len() || n == self.data@.len(),
                self.schema == old(self).schema,
                self.data@.len() == old(self).data@.len(),
                forall|j: int|
                    0 <= j < row.data@.len() && j < old(self).data@.len() ==> fits(
                        #[trigger] row.data@[j],
                        old(self).data@[j].kind(),
                    ),
                forall|j: int|
                    0 <= j < self.data@.len() ==> (#[trigger] self.data@[j]).kind() == old(self).data@[j].kind(),
                forall|j: int|
                    0 <= j < i ==> (#[trigger] self.data@[j]).cells() == old(self).data@[j].cells().push(row.data@[j]),
                forall|j: int|
                    i <= j < self.data@.len() ==> (#[trigger] self.data@[j]) == old(self).data@[j],
            decreases n - i,
        {
            let ghost before = self.data@;
            assert(fits(row.data@[i as int], old(self).data@[i as int].kind()));
            push_cell(&mut self.data[i], &row.data[i]);
            assert(forall|j: int| 0 <= j < before.len() && j != i ==> self.data@[j] == before[j]);
            i += 1;
        }
    }

    /// The number of rows that the schema knows of.
    pub fn nrows(&self) -> (n: usize)
        ensures
            n == self.schema.row_names@.len(),
    {
        self.schema.length()
    }

    /// The number of columns of the schema.
    pub fn ncols(&self) -> (n: usize)
        ensures
            n == self.schema.schema@.len(),
    {
        self.schema.width()
    }
}

} // verus!
