//! Rectangular tables of named columns, and the operations on them that the
//! training flow is built from: row selection, column selection by name and
//! the row-major dense layout.
//!
//! A table is generic in the type of its cells, so that the same verified code
//! serves whatever numeric type a caller stores. A cell may be missing.

use vstd::prelude::*;
use vstd::string::*;
use crate::error::PipelineError;

verus! {

/// The mathematical content of a column: its name and its cells from the first
/// row to the last.
pub struct ColumnView<T> {
    pub name: Seq<char>,
    pub values: Seq<Option<T>>,
}

/// The mathematical content of a table: its columns from left to right.
pub struct TableView<T> {
    pub columns: Seq<ColumnView<T>>,
}

impl<T> TableView<T> {
    /// The number of columns.
    pub open spec fn width(self) -> nat {
        self.columns.len()
    }

    /// The number of rows; a table without columns has none.
    pub open spec fn height(self) -> nat {
        if self.columns.len() == 0 {
            0
        } else {
            self.columns[0].values.len()
        }
    }

    /// The column names from left to right.
    pub open spec fn names(self) -> Seq<Seq<char>> {
        Seq::new(self.columns.len(), |c: int| self.columns[c].name)
    }

    /// The cell in row `row` of column `col`.
    pub open spec fn cell(self, row: int, col: int) -> Option<T> {
        self.columns[col].values[row]
    }

    /// Every column has as many cells as the table has rows.
    pub open spec fn rectangular(self) -> bool {
        forall|c: int| 0 <= c < self.columns.len() ==> (#[trigger] self.columns[c]).values.len() == self.height()
    }

    /// No two columns share a name.
    pub open spec fn distinct_names(self) -> bool {
        forall|i: int, j: int|
            0 <= i < j < self.columns.len() ==> (#[trigger] self.columns[i]).name != (
            #[trigger] self.columns[j]).name
    }

    /// The invariant of every table: rectangular, with distinct column names.
    pub open spec fn wf(self) -> bool {
        self.rectangular() && self.distinct_names()
    }

    /// The column at position `col` carries the name `name`.
    pub open spec fn names_column(self, name: Seq<char>, col: int) -> bool {
        0 <= col < self.columns.len() && self.columns[col].name == name
    }

    /// Some column carries the name `name`.
    pub open spec fn has_column(self, name: Seq<char>) -> bool {
        exists|c: int| self.names_column(name, c)
    }

    /// The position of the column named `name`, where there is one.
    pub open spec fn index_of(self, name: Seq<char>) -> int {
        choose|c: int| self.names_column(name, c)
    }

    /// Every name in `names` is the name of a column.
    pub open spec fn has_all(self, names: Seq<Seq<char>>) -> bool {
        forall|k: int| 0 <= k < names.len() ==> self.has_column(#[trigger] names[k])
    }

    /// `names[k]` is the first name in `names` that no column carries.
    pub open spec fn first_missing_at(self, names: Seq<Seq<char>>, k: int) -> bool {
        &&& 0 <= k < names.len()
        &&& !self.has_column(names[k])
        &&& self.has_all(names.take(k))
    }

    /// The table made of the named columns, in the order of `names`.
    pub open spec fn select(self, names: Seq<Seq<char>>) -> TableView<T> {
        TableView { columns: Seq::new(names.len(), |k: int| self.columns[self.index_of(names[k])]) }
    }

    /// Every index in `rows` is the index of a row.
    pub open spec fn rows_in_range(self, rows: Seq<usize>) -> bool {
        forall|i: int| 0 <= i < rows.len() ==> (#[trigger] rows[i]) < self.height()
    }

    /// The table whose row `i` is row `rows[i]` of this one, under the same
    /// column names.
    pub open spec fn take_rows(self, rows: Seq<usize>) -> TableView<T> {
        TableView {
            columns: Seq::new(
                self.columns.len(),
                |c: int|
                    ColumnView {
                        name: self.columns[c].name,
                        values: Seq::new(rows.len(), |i: int| self.columns[c].values[rows[i] as int]),
                    },
            ),
        }
    }

    /// No cell is missing.
    pub open spec fn is_dense(self) -> bool {
        forall|r: int, c: int|
            0 <= r < self.height() && 0 <= c < self.width() ==> (#[trigger] self.cell(r, c)) is Some
    }
}

/// Whether the strings of `names` are pairwise different.
pub open spec fn pairwise_distinct(names: Seq<Seq<char>>) -> bool {
    forall|i: int, j: int| 0 <= i < j < names.len() ==> #[trigger] names[i] != #[trigger] names[j]
}

/// A named column of cells. A cell is `None` where the value is missing.
#[derive(Debug, Clone, PartialEq)]
pub struct Column<T> {
    pub name: String,
    pub values: Vec<Option<T>>,
}

impl<T> View for Column<T> {
    type V = ColumnView<T>;

    open spec fn view(&self) -> ColumnView<T> {
        ColumnView { name: self.name@, values: self.values@ }
    }
}

/// The content of a sequence of columns.
pub open spec fn columns_view<T>(columns: Seq<Column<T>>) -> TableView<T> {
    TableView { columns: Seq::new(columns.len(), |c: int| columns[c]@) }
}

/// What a decoder found in a column of the raw data.
#[derive(Debug, Clone, PartialEq)]
pub enum Decoded<T> {
    /// Every value that is there is a number.
    Numbers(Column<T>),
    /// Some value in the column, named here, is not a number.
    Text(String),
}

/// Every decoded column holds numbers.
pub open spec fn all_numbers<T>(decoded: Seq<Decoded<T>>) -> bool {
    forall|c: int| 0 <= c < decoded.len() ==> (#[trigger] decoded[c]) is Numbers
}

/// The content of decoded columns that all hold numbers.
pub open spec fn decoded_view<T>(decoded: Seq<Decoded<T>>) -> TableView<T> {
    TableView { columns: Seq::new(decoded.len(), |c: int| decoded[c]->Numbers_0@) }
}

/// An ordered sequence of named columns of equal length whose names are
/// pairwise different.
#[derive(Debug, PartialEq)]
pub struct Table<T> {
    columns: Vec<Column<T>>,
}

impl<T> View for Table<T> {
    type V = TableView<T>;

    closed spec fn view(&self) -> TableView<T> {
        columns_view(self.columns@)
    }
}

impl<T> Table<T> {
    #[verifier::type_invariant]
    spec fn well_formed(&self) -> bool {
        self@.wf()
    }
}

impl<T: Copy> Clone for Table<T> {
    /// A table with the same columns.
    fn clone(&self) -> (copy: Self)
        ensures
            copy@ == self@,
    {
        proof {
            use_type_invariant(self);
        }
        let mut columns: Vec<Column<T>> = Vec::new();
        let mut c: usize = 0;
        while c < self.columns.len()
            invariant
                0 <= c <= self.columns.len(),
                columns@.len() == c,
                forall|k: int| 0 <= k < c ==> (#[trigger] columns@[k])@ == self.columns@[k]@,
            decreases self.columns.len() - c,
        {
            let source = &self.columns[c];
            columns.push(Column { name: source.name.clone(), values: copied(&source.values) });
            c += 1;
        }
        assert(columns_view(columns@).columns =~= self@.columns);
        Table { columns }
    }
}

impl<T: Copy> Table<T> {
    /// Builds a table from decoded columns. The columns must have equal lengths
    /// and pairwise different names; data that does not is refused as
    /// undecodable.
    pub fn from_columns(columns: Vec<Column<T>>) -> (result: Result<Table<T>, PipelineError>)
        ensures
            match result {
                Ok(table) => columns_view(columns@).wf() && table@ == columns_view(columns@),
                Err(error) => !columns_view(columns@).wf() && error == PipelineError::DecodeError,
            },
    {
        let ghost view = columns_view(columns@);
        let width = columns.len();
        let mut c: usize = 0;
        while c < width
            invariant
                width == columns.len(),
                view == columns_view(columns@),
                0 <= c <= width,
                forall|k: int| 0 <= k < c ==> (#[trigger] view.columns[k]).values.len() == view.height(),
                forall|i: int, j: int|
                    0 <= i < j < c ==> (#[trigger] view.columns[i]).name != (#[trigger] view.columns[j]).name,
            decreases width - c,
        {
            if columns[c].values.len() != columns[0].values.len() {
                assert(view.columns[c as int].values.len() != view.height());
                return Err(PipelineError::DecodeError);
            }
            let mut earlier: usize = 0;
            while earlier < c
                invariant
                    width == columns.len(),
                    view == columns_view(columns@),
                    0 <= earlier <= c < width,
                    forall|i: int| 0 <= i < earlier ==> (#[trigger] view.columns[i]).name != view.columns[c as int].name,
                decreases c - earlier,
            {
                if columns[earlier].name == columns[c].name {
                    assert(view.columns[earlier as int].name == view.columns[c as int].name);
                    return Err(PipelineError::DecodeError);
                }
                earlier += 1;
            }
            c += 1;
        }
        Ok(Table { columns })
    }

    /// Builds a table from the columns that a decoder found in raw data. Every
    /// column must hold numbers, and the columns must have equal lengths and
    /// pairwise different names; data that does not is refused as undecodable.
    pub fn from_decoded(decoded: Vec<Decoded<T>>) -> (result: Result<Table<T>, PipelineError>)
        ensures
            match result {
                Ok(table) => {
                    &&& all_numbers(decoded@)
                    &&& decoded_view(decoded@).wf()
                    &&& table@ == decoded_view(decoded@)
                },
                Err(error) => {
                    &&& !(all_numbers(decoded@) && decoded_view(decoded@).wf())
                    &&& error == PipelineError::DecodeError
                },
            },
    {
        let ghost found = decoded@;
        let mut columns: Vec<Column<T>> = Vec::new();
        let mut rest = decoded;
        let mut c: usize = 0;
        while c < rest.len()
            invariant
                found == decoded@,
                rest@.len() == found.len(),
                0 <= c <= rest@.len(),
                columns@.len() == c,
                forall|k: int| c <= k < rest@.len() ==> rest@[k] == found[k],
                forall|k: int| 0 <= k < c ==> (#[trigger] found[k]) is Numbers,
                forall|k: int| 0 <= k < c ==> (#[trigger] columns@[k]) == found[k]->Numbers_0,
            decreases rest@.len() - c,
        {
            let mut taken = Decoded::Text(String::new());
            core::mem::swap(&mut rest[c], &mut taken);
            match taken {
                Decoded::Numbers(column) => {
                    columns.push(column);
                },
                Decoded::Text(_) => {
                    assert(!(found[c as int] is Numbers));
                    return Err(PipelineError::DecodeError);
                },
            }
            c += 1;
        }
        assert(columns_view(columns@).columns =~= decoded_view(found).columns);
        Table::from_columns(columns)
    }

    /// The number of rows.
    pub fn height(&self) -> (rows: usize)
        ensures
            rows == self@.height(),
            self@.wf(),
    {
        proof {
            use_type_invariant(self);
        }
        if self.columns.len() == 0 {
            0
        } else {
            self.columns[0].values.len()
        }
    }

    /// The number of columns.
    pub fn width(&self) -> (cols: usize)
        ensures
            cols == self@.width(),
            self@.wf(),
    {
        proof {
            use_type_invariant(self);
        }
        self.columns.len()
    }

    /// The position of the column named `name`, if the table has one.
    pub fn column_index(&self, name: &str) -> (index: Option<usize>)
        ensures
            match index {
                Some(c) => self@.names_column(name@, c as int),
                None => !self@.has_column(name@),
            },
    {
        let wanted = String::from_str(name);
        let mut c: usize = 0;
        while c < self.columns.len()
            invariant
                wanted@ == name@,
                0 <= c <= self.columns.len(),
                forall|k: int| 0 <= k < c ==> !self@.names_column(name@, k),
            decreases self.columns.len() - c,
        {
            if self.columns[c].name == wanted {
                return Some(c);
            }
            c += 1;
        }
        None
    }

    /// The rows listed in `rows`, in that order, as a table of their own. An
    /// index may occur several times. An index that is not the index of a row
    /// is refused.
    pub fn take_rows(&self, rows: &Vec<usize>) -> (result: Result<Table<T>, PipelineError>)
        ensures
            match result {
                Ok(table) => self@.rows_in_range(rows@) && table@ == self@.take_rows(rows@),
                Err(error) => !self@.rows_in_range(rows@) && error == PipelineError::InvalidArgument,
            },
    {
        proof {
            use_type_invariant(self);
        }
        let height = self.height();
        let mut i: usize = 0;
        while i < rows.len()
            invariant
                0 <= i <= rows.len(),
                height == self@.height(),
                forall|k: int| 0 <= k < i ==> (#[trigger] rows@[k]) < height,
            decreases rows.len() - i,
        {
            if rows[i] >= height {
                return Err(PipelineError::InvalidArgument);
            }
            i += 1;
        }
        let ghost target = self@.take_rows(rows@);
        let mut taken: Vec<Column<T>> = Vec::new();
        let mut c: usize = 0;
        while c < self.columns.len()
            invariant
                self@.wf(),
                self@.rows_in_range(rows@),
                target == self@.take_rows(rows@),
                0 <= c <= self.columns.len(),
                taken@.len() == c,
                forall|k: int| 0 <= k < c ==> (#[trigger] taken@[k])@ == target.columns[k],
            decreases self.columns.len() - c,
        {
            let source = &self.columns[c];
            assert(self@.columns[c as int].values.len() == self@.height());
            let values = gather(&source.values, rows);
            let column = Column { name: source.name.clone(), values };
            assert(column@ == target.columns[c as int]);
            taken.push(column);
            c += 1;
        }
        assert(columns_view(taken@).columns =~= target.columns);
        Ok(Table { columns: taken })
    }

    /// The named columns, in the order of `names`, as a table of their own.
    /// The names must be pairwise different, and each must be the name of a
    /// column: the first that is not is reported as missing. The result keeps
    /// every row; with no name at all it has no column, and so no row.
    pub fn select(&self, names: &Vec<String>) -> (result: Result<Table<T>, PipelineError>)
        ensures
            match result {
                Ok(table) => {
                    &&& pairwise_distinct(names.deep_view())
                    &&& self@.has_all(names.deep_view())
                    &&& table@ == self@.select(names.deep_view())
                },
                Err(PipelineError::InvalidArgument) => !pairwise_distinct(names.deep_view()),
                Err(PipelineError::MissingColumn(name)) => {
                    &&& pairwise_distinct(names.deep_view())
                    &&& exists|k: int|
                        self@.first_missing_at(names.deep_view(), k) && name@ == names.deep_view()[k]
                },
                Err(_) => false,
            },
    {
        proof {
            use_type_invariant(self);
        }
        let ghost wanted = names.deep_view();
        let mut j: usize = 0;
        while j < names.len()
            invariant
                wanted == names.deep_view(),
                0 <= j <= names.len(),
                forall|a: int, b: int| 0 <= a < b < j ==> #[trigger] wanted[a] != #[trigger] wanted[b],
            decreases names.len() - j,
        {
            let mut i: usize = 0;
            while i < j
                invariant
                    wanted == names.deep_view(),
                    0 <= i <= j < names.len(),
                    forall|a: int| 0 <= a < i ==> #[trigger] wanted[a] != wanted[j as int],
                decreases j - i,
            {
                if names[i] == names[j] {
                    assert(wanted[i as int] == wanted[j as int]);
                    return Err(PipelineError::InvalidArgument);
                }
                i += 1;
            }
            j += 1;
        }
        let ghost target = self@.select(wanted);
        let mut chosen: Vec<Column<T>> = Vec::new();
        let mut k: usize = 0;
        while k < names.len()
            invariant
                self@.wf(),
                wanted == names.deep_view(),
                pairwise_distinct(wanted),
                target == self@.select(wanted),
                0 <= k <= names.len(),
                chosen@.len() == k,
                self@.has_all(wanted.take(k as int)),
                forall|a: int| 0 <= a < k ==> (#[trigger] chosen@[a])@ == target.columns[a],
            decreases names.len() - k,
        {
            match self.column_index(names[k].as_str()) {
                None => {
                    assert(self@.first_missing_at(wanted, k as int));
                    return Err(PipelineError::MissingColumn(names[k].clone()));
                },
                Some(c) => {
                    let source = &self.columns[c];
                    assert(self@.names_column(wanted[k as int], c as int));
                    assert(self@.index_of(wanted[k as int]) == c);
                    let values = copied(&source.values);
                    let column = Column { name: source.name.clone(), values };
                    assert(column@ == target.columns[k as int]);
                    chosen.push(column);
                    assert forall|a: int| 0 <= a < k + 1 implies self@.has_column(
                        #[trigger] wanted.take(k + 1)[a],
                    ) by {
                        if a < k {
                            assert(wanted.take(k as int)[a] == wanted[a]);
                        }
                    }
                },
            }
            k += 1;
        }
        assert(wanted.take(names.len() as int) == wanted);
        assert(columns_view(chosen@).columns =~= target.columns);
        proof {
            lemma_select_wf(self@, wanted);
        }
        Ok(Table { columns: chosen })
    }

    /// The columns from left to right.
    pub fn columns(&self) -> (columns: &Vec<Column<T>>)
        ensures
            columns_view(columns@) == self@,
            self@.wf(),
    {
        proof {
            use_type_invariant(self);
        }
        &self.columns
    }
}

/// The cells of `values` at the positions `rows`, in that order.
fn gather<T: Copy>(values: &Vec<Option<T>>, rows: &Vec<usize>) -> (out: Vec<Option<T>>)
    requires
        forall|i: int| 0 <= i < rows.len() ==> (#[trigger] rows@[i]) < values.len(),
    ensures
        out@ == Seq::new(rows@.len(), |i: int| values@[rows@[i] as int]),
{
    let mut out: Vec<Option<T>> = Vec::new();
    let mut i: usize = 0;
    while i < rows.len()
        invariant
            forall|k: int| 0 <= k < rows.len() ==> (#[trigger] rows@[k]) < values.len(),
            0 <= i <= rows.len(),
            out@.len() == i,
            forall|k: int| 0 <= k < i ==> out@[k] == values@[rows@[k] as int],
        decreases rows.len() - i,
    {
        out.push(values[rows[i]]);
        i += 1;
    }
    assert(out@ =~= Seq::new(rows@.len(), |i: int| values@[rows@[i] as int]));
    out
}

/// A copy of `values`.
pub(crate) fn copied<T: Copy>(values: &Vec<T>) -> (out: Vec<T>)
    ensures
        out@ == values@,
{
    let mut out: Vec<T> = Vec::new();
    let mut i: usize = 0;
    while i < values.len()
        invariant
            0 <= i <= values.len(),
            out@.len() == i,
            forall|k: int| 0 <= k < i ==> out@[k] == values@[k],
        decreases values.len() - i,
    {
        out.push(values[i]);
        i += 1;
    }
    assert(out@ =~= values@);
    out
}

/// In a table with distinct column names, a name belongs to one column only.
pub proof fn lemma_index_of_unique<T>(table: TableView<T>, name: Seq<char>, col: int)
    requires
        table.distinct_names(),
        table.names_column(name, col),
    ensures
        table.index_of(name) == col,
{
    let found = table.index_of(name);
    assert(table.names_column(name, found));
    if found < col {
        assert(table.columns[found].name != table.columns[col].name);
    } else if col < found {
        assert(table.columns[col].name != table.columns[found].name);
    }
}

/// Selecting distinct names that are all present gives a table that is again
/// rectangular with distinct names, of the same height where any column is
/// selected.
pub proof fn lemma_select_wf<T>(table: TableView<T>, names: Seq<Seq<char>>)
    requires
        table.wf(),
        pairwise_distinct(names),
        table.has_all(names),
    ensures
        table.select(names).wf(),
        table.select(names).width() == names.len(),
        table.select(names).names() == names,
        names.len() > 0 ==> table.select(names).height() == table.height(),
{
    let selected = table.select(names);
    assert forall|k: int| 0 <= k < names.len() implies table.names_column(
        names[k],
        table.index_of(names[k]),
    ) by {
        assert(table.has_column(names[k]));
    }
    assert forall|k: int| 0 <= k < selected.columns.len() implies (#[trigger] selected.columns[k]).values.len()
        == selected.height() by {
        let c = table.index_of(names[k]);
        let c0 = table.index_of(names[0]);
        assert(table.names_column(names[k], c));
        assert(table.names_column(names[0], c0));
        assert(table.columns[c].values.len() == table.height());
        assert(table.columns[c0].values.len() == table.height());
    }
    assert forall|i: int, j: int| 0 <= i < j < selected.columns.len() implies (
    #[trigger] selected.columns[i]).name != (#[trigger] selected.columns[j]).name by {
        assert(table.names_column(names[i], table.index_of(names[i])));
        assert(table.names_column(names[j], table.index_of(names[j])));
        assert(names[i] != names[j]);
    }
    assert(selected.names() =~= names);
    if names.len() > 0 {
        let c0 = table.index_of(names[0]);
        assert(table.names_column(names[0], c0));
        assert(table.columns[c0].values.len() == table.height());
    }
}

/// Taking rows of a table keeps its columns, their names and their order, and
/// puts row `rows[i]` of the table in row `i`.
pub proof fn lemma_take_rows<T>(table: TableView<T>, rows: Seq<usize>)
    requires
        table.wf(),
        table.rows_in_range(rows),
    ensures
        table.take_rows(rows).wf(),
        table.take_rows(rows).width() == table.width(),
        table.take_rows(rows).names() == table.names(),
        table.width() > 0 ==> table.take_rows(rows).height() == rows.len(),
        forall|name: Seq<char>, c: int| #[trigger]
            table.take_rows(rows).names_column(name, c) <==> table.names_column(name, c),
        forall|name: Seq<char>| #[trigger]
            table.take_rows(rows).has_column(name) <==> table.has_column(name),
        forall|name: Seq<char>|
            table.has_column(name) ==> #[trigger] table.take_rows(rows).index_of(name)
                == table.index_of(name),
        forall|i: int, c: int|
            0 <= i < rows.len() && 0 <= c < table.width() ==> #[trigger] table.take_rows(rows).cell(i, c)
                == table.cell(rows[i] as int, c),
{
    let part = table.take_rows(rows);
    assert(part.names() =~= table.names());
    assert forall|name: Seq<char>, c: int| #[trigger]
        part.names_column(name, c) <==> table.names_column(name, c) by {
    }
    assert forall|name: Seq<char>| #[trigger] part.has_column(name) <==> table.has_column(name) by {
        if part.has_column(name) {
            let c = choose|c: int| part.names_column(name, c);
            assert(table.names_column(name, c));
        }
        if table.has_column(name) {
            let c = choose|c: int| table.names_column(name, c);
            assert(part.names_column(name, c));
        }
    }
    assert forall|i: int, j: int| 0 <= i < j < part.columns.len() implies (#[trigger] part.columns[i]).name
        != (#[trigger] part.columns[j]).name by {
        assert(table.columns[i].name != table.columns[j].name);
    }
    assert forall|name: Seq<char>| table.has_column(name) implies #[trigger] part.index_of(name)
        == table.index_of(name) by {
        let c = table.index_of(name);
        assert(table.names_column(name, c));
        assert(part.names_column(name, c));
        lemma_index_of_unique(part, name, c);
    }
}

} // verus!
