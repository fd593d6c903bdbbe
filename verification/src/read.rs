//! Rows of the catalog, read from the cells that the database hands out.

use vstd::prelude::*;
use crate::endpoint::{parse, parse_endpoint, Endpoint, EndpointError, EndpointView};
use crate::icao::{parse_text, IcaoCode, IcaoError};
use crate::tokens::{decoded_text, deserialize_token_set, TokenSet, TokenSetError};

verus! {

/// A cell of a row.
#[derive(Debug, Clone, PartialEq, Eq)]
pub enum SqliteValue {
    Null,
    Integer(i64),
    /// A floating-point number; its value plays no part in a row of servers.
    Real,
    Text(String),
    Blob(Vec<u8>),
}

/// A column of the table of servers.
#[derive(Debug, Clone, Copy, PartialEq, Eq)]
pub enum Column {
    Endpoint,
    Icao,
    Tokens,
}

/// Why some cells are no row of servers.
#[derive(Debug, Clone, Copy, PartialEq, Eq)]
pub enum RowError {
    /// The row has no cell for the column.
    MissingColumn(Column),
    /// The cell of the column holds no text.
    NotText(Column),
    /// The text of the first cell is no endpoint.
    Endpoint(EndpointError),
    /// The text of the second cell is no region code.
    Icao(IcaoError),
    /// The text of the third cell is no token set.
    Tokens(TokenSetError),
}

/// A server as the catalog lists it.
#[derive(Debug, PartialEq)]
pub struct ServerRow {
    pub endpoint: Endpoint,
    pub icao: IcaoCode,
    pub tokens: TokenSet,
}

/// What a row holds.
pub struct RowView {
    pub endpoint: EndpointView,
    pub icao: Seq<u8>,
    pub tokens: Set<Seq<u8>>,
}

impl View for ServerRow {
    type V = RowView;

    open spec fn view(&self) -> RowView {
        RowView { endpoint: self.endpoint@, icao: self.icao@, tokens: self.tokens@ }
    }
}

/// What a cell holds, as far as a row of servers is concerned: its text, if it is one.
pub open spec fn cell_text(value: SqliteValue) -> Option<Seq<char>> {
    match value {
        SqliteValue::Text(text) => Some(text@),
        _ => None,
    }
}

/// The texts of the cells.
pub open spec fn cell_texts(values: Seq<SqliteValue>) -> Seq<Option<Seq<char>>> {
    Seq::new(values.len(), |i: int| cell_text(values[i]))
}

/// The text of the cell at `index`, or why there is none.
pub open spec fn column_text(cells: Seq<Option<Seq<char>>>, index: int, column: Column) -> Result<
    Seq<char>,
    RowError,
> {
    if index >= cells.len() {
        Err(RowError::MissingColumn(column))
    } else {
        match cells[index] {
            Some(text) => Ok(text),
            None => Err(RowError::NotText(column)),
        }
    }
}

/// The row that three texts denote, or the first of them that denotes nothing.
pub open spec fn row_of_texts(endpoint: Seq<char>, icao: Seq<char>, tokens: Seq<char>) -> Result<
    RowView,
    RowError,
> {
    match parse(endpoint) {
        Err(e) => Err(RowError::Endpoint(e)),
        Ok(endpoint) => match parse_text(icao) {
            Err(e) => Err(RowError::Icao(e)),
            Ok(icao) => match decoded_text(tokens) {
                Err(e) => Err(RowError::Tokens(e)),
                Ok(tokens) => Ok(RowView { endpoint, icao, tokens }),
            },
        },
    }
}

/// The row that the first three cells denote, or the first fault: each cell
/// is looked up and read before the next one; further cells play no part.
pub open spec fn row_of_cells(cells: Seq<Option<Seq<char>>>) -> Result<RowView, RowError> {
    match column_text(cells, 0, Column::Endpoint) {
        Err(e) => Err(e),
        Ok(endpoint) => match parse(endpoint) {
            Err(e) => Err(RowError::Endpoint(e)),
            Ok(endpoint) => match column_text(cells, 1, Column::Icao) {
                Err(e) => Err(e),
                Ok(icao) => match parse_text(icao) {
                    Err(e) => Err(RowError::Icao(e)),
                    Ok(icao) => match column_text(cells, 2, Column::Tokens) {
                        Err(e) => Err(e),
                        Ok(tokens) => match decoded_text(tokens) {
                            Err(e) => Err(RowError::Tokens(e)),
                            Ok(tokens) => Ok(RowView { endpoint, icao, tokens }),
                        },
                    },
                },
            },
        },
    }
}

/// Whether `r` is what `expected` says, the row taken by what it holds.
pub open spec fn row_is(r: Result<ServerRow, RowError>, expected: Result<RowView, RowError>) -> bool {
    match r {
        Ok(row) => expected == Ok::<RowView, RowError>(row@),
        Err(e) => expected == Err::<RowView, RowError>(e),
    }
}

/// The text of the cell at `index`.
fn get_column(values: &[SqliteValue], index: usize, column: Column) -> (r: Result<&str, RowError>)
    ensures
        match r {
            Ok(text) => column_text(cell_texts(values@), index as int, column) == Ok::<
                Seq<char>,
                RowError,
            >(text@) && index < values@.len() && cell_text(values@[index as int]) == Some(text@),
            Err(e) => column_text(cell_texts(values@), index as int, column) == Err::<
                Seq<char>,
                RowError,
            >(e),
        },
{
    if index >= values.len() {
        return Err(RowError::MissingColumn(column));
    }
    match &values[index] {
        SqliteValue::Text(text) => Ok(text.as_str()),
        _ => Err(RowError::NotText(column)),
    }
}

/// A value that is read from the cells of a row.
pub trait FromSqlValue: Sized {
    /// Whether `r` is what the cells denote.
    spec fn denoted_by(values: Seq<SqliteValue>, r: Result<Self, RowError>) -> bool;

    /// Reads the value from the cells of a row.
    fn from_sql(values: &[SqliteValue]) -> (r: Result<Self, RowError>)
        ensures
            Self::denoted_by(values@, r),
    ;
}

impl ServerRow {
    /// Reads a row from the texts of its three cells.
    pub fn from_texts(endpoint: &str, icao: &str, tokens: &str) -> (r: Result<Self, RowError>)
        ensures
            row_is(r, row_of_texts(endpoint@, icao@, tokens@)),
    {
        let endpoint = match parse_endpoint(endpoint) {
            Ok(endpoint) => endpoint,
            Err(e) => {
                return Err(RowError::Endpoint(e));
            },
        };
        let icao = match IcaoCode::parse(icao) {
            Ok(icao) => icao,
            Err(e) => {
                return Err(RowError::Icao(e));
            },
        };
        let tokens = match deserialize_token_set(tokens) {
            Ok(tokens) => tokens,
            Err(e) => {
                return Err(RowError::Tokens(e));
            },
        };
        Ok(ServerRow { endpoint, icao, tokens })
    }
}

impl FromSqlValue for ServerRow {
    open spec fn denoted_by(values: Seq<SqliteValue>, r: Result<Self, RowError>) -> bool {
        row_is(r, row_of_cells(cell_texts(values)))
    }

    fn from_sql(values: &[SqliteValue]) -> (r: Result<Self, RowError>) {
        let endpoint = match get_column(values, 0, Column::Endpoint) {
            Ok(text) => text,
            Err(e) => {
                return Err(e);
            },
        };
        let endpoint = match parse_endpoint(endpoint) {
            Ok(endpoint) => endpoint,
            Err(e) => {
                return Err(RowError::Endpoint(e));
            },
        };
        let icao = match get_column(values, 1, Column::Icao) {
            Ok(text) => text,
            Err(e) => {
                return Err(e);
            },
        };
        let icao = match IcaoCode::parse(icao) {
            Ok(icao) => icao,
            Err(e) => {
                return Err(RowError::Icao(e));
            },
        };
        let tokens = match get_column(values, 2, Column::Tokens) {
            Ok(text) => text,
            Err(e) => {
                return Err(e);
            },
        };
        let tokens = match deserialize_token_set(tokens) {
            Ok(tokens) => tokens,
            Err(e) => {
                return Err(RowError::Tokens(e));
            },
        };
        Ok(ServerRow { endpoint, icao, tokens })
    }
}

} // verus!
