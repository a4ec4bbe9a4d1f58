//! Statements for the database, with the values of their placeholders.

use vstd::prelude::*;
use vstd::string::*;

use crate::order;

verus! {

/// A value that stands for a placeholder.
#[derive(Debug, PartialEq, Eq)]
pub enum SqlValue {
    Text(Option<String>),
    BigInt(Option<i64>),
    Int(i32),
}

/// What an [`SqlValue`] says.
pub enum SqlModel {
    Text(Option<Seq<char>>),
    BigInt(Option<i64>),
    Int(i32),
}

impl View for SqlValue {
    type V = SqlModel;

    open spec fn view(&self) -> SqlModel {
        match self {
            SqlValue::Text(Some(t)) => SqlModel::Text(Some(t@)),
            SqlValue::Text(None) => SqlModel::Text(None),
            SqlValue::BigInt(i) => SqlModel::BigInt(*i),
            SqlValue::Int(i) => SqlModel::Int(*i),
        }
    }
}

/// A statement: its text, and a value for each placeholder, in order.
#[derive(Debug, PartialEq, Eq)]
pub struct SqlQuery {
    pub sql: String,
    pub values: Vec<SqlValue>,
}

/// What an [`SqlQuery`] says.
#[verifier::ext_equal]
pub struct QueryModel {
    pub sql: Seq<char>,
    pub values: Seq<SqlModel>,
}

impl View for SqlQuery {
    type V = QueryModel;

    open spec fn view(&self) -> QueryModel {
        QueryModel { sql: self.sql@, values: order::views(self.values@) }
    }
}

/// The value of a text.
pub open spec fn text(s: Seq<char>) -> SqlModel {
    SqlModel::Text(Some(s))
}

/// The value of a number.
pub open spec fn number(i: i64) -> SqlModel {
    SqlModel::BigInt(Some(i))
}

impl SqlQuery {
    /// A statement without values.
    pub fn new(sql: &str) -> (r: SqlQuery)
        ensures
            r@ == (QueryModel { sql: sql@, values: Seq::empty() }),
    {
        let r = SqlQuery { sql: sql.to_owned(), values: Vec::new() };
        assert(r@.values =~= Seq::<SqlModel>::empty());
        r
    }

    /// Puts more text behind the statement.
    pub fn push_sql(&mut self, sql: &str)
        ensures
            final(self)@ == (QueryModel { sql: old(self)@.sql + sql@, ..old(self)@ }),
    {
        self.sql.append(sql);
    }

    fn push_value(&mut self, value: SqlValue)
        ensures
            final(self)@ == (QueryModel { values: old(self)@.values.push(value@), ..old(self)@ }),
    {
        let ghost before = self@;
        let ghost v = value@;
        self.values.push(value);
        assert(self@.values =~= before.values.push(v));
    }

    /// Gives the next placeholder a text.
    pub fn push_text(&mut self, value: &str)
        ensures
            final(self)@ == (QueryModel {
                values: old(self)@.values.push(text(value@)),
                ..old(self)@
            }),
    {
        self.push_value(SqlValue::Text(Some(value.to_owned())));
    }

    /// Gives the next placeholder a text that may be missing.
    pub fn push_opt_text(&mut self, value: &Option<String>)
        ensures
            final(self)@ == (QueryModel {
                values: old(self)@.values.push(SqlModel::Text(crate::text::opt_text(*value))),
                ..old(self)@
            }),
    {
        match value {
            Some(s) => self.push_value(SqlValue::Text(Some(s.clone()))),
            None => self.push_value(SqlValue::Text(None)),
        }
    }

    /// Gives the next placeholder a number.
    pub fn push_number(&mut self, value: i64)
        ensures
            final(self)@ == (QueryModel {
                values: old(self)@.values.push(number(value)),
                ..old(self)@
            }),
    {
        self.push_value(SqlValue::BigInt(Some(value)));
    }

    /// Gives the next placeholder a number that may be missing.
    pub fn push_opt_number(&mut self, value: Option<i64>)
        ensures
            final(self)@ == (QueryModel {
                values: old(self)@.values.push(SqlModel::BigInt(value)),
                ..old(self)@
            }),
    {
        self.push_value(SqlValue::BigInt(value));
    }

    /// Gives the next placeholder a small number.
    pub fn push_int(&mut self, value: i32)
        ensures
            final(self)@ == (QueryModel {
                values: old(self)@.values.push(SqlModel::Int(value)),
                ..old(self)@
            }),
    {
        self.push_value(SqlValue::Int(value));
    }

    /// Gives the next placeholder one or zero.
    pub fn push_flag(&mut self, value: bool)
        ensures
            final(self)@ == (QueryModel {
                values: old(self)@.values.push(
                    SqlModel::Int(
                        if value {
                            1
                        } else {
                            0
                        },
                    ),
                ),
                ..old(self)@
            }),
    {
        self.push_value(
            SqlValue::Int(
                if value {
                    1
                } else {
                    0
                },
            ),
        );
    }
}

} // verus!
