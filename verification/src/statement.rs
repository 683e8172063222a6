//! What is asked of a database.

use vstd::prelude::*;

use crate::row::{value_views, SqlValue, ValueView};

verus! {

/// The values that a statement is given.
#[derive(Debug, PartialEq, Eq)]
pub enum Params {
    /// By their place.
    Positional(Vec<SqlValue>),
    /// By their name.
    Named(Vec<(String, SqlValue)>),
}

/// The values that a statement is given, over their views.
pub enum ParamsView {
    Positional(Seq<ValueView>),
    Named(Seq<(Seq<char>, ValueView)>),
}

/// The views of a list of named values.
pub open spec fn named_views(params: Seq<(String, SqlValue)>) -> Seq<(Seq<char>, ValueView)> {
    params.map_values(|p: (String, SqlValue)| (p.0@, p.1@))
}

impl View for Params {
    type V = ParamsView;

    open spec fn view(&self) -> ParamsView {
        match *self {
            Params::Positional(values) => ParamsView::Positional(value_views(values@)),
            Params::Named(params) => ParamsView::Named(named_views(params@)),
        }
    }
}

/// One request to a database.
#[derive(Debug, PartialEq, Eq)]
pub enum DbAction {
    /// Begin a transaction.
    Begin,
    /// Execute a statement that gives no rows.
    Execute { sql: String, params: Params },
    /// Commit the transaction.
    Commit,
}

/// A request, with text as sequences.
pub enum DbActionView {
    Begin,
    Execute { sql: Seq<char>, params: ParamsView },
    Commit,
}

impl View for DbAction {
    type V = DbActionView;

    open spec fn view(&self) -> DbActionView {
        match *self {
            DbAction::Begin => DbActionView::Begin,
            DbAction::Execute { sql, params } => DbActionView::Execute {
                sql: sql@,
                params: params@,
            },
            DbAction::Commit => DbActionView::Commit,
        }
    }
}

/// The views of a list of requests.
pub open spec fn db_action_views(actions: Seq<DbAction>) -> Seq<DbActionView> {
    actions.map_values(|a: DbAction| a@)
}

/// A statement without values, as a request.
pub open spec fn plain(sql: Seq<char>) -> DbActionView {
    DbActionView::Execute { sql, params: ParamsView::Positional(Seq::empty()) }
}

/// A statement without values.
pub(crate) fn execute_plain(sql: &str) -> (action: DbAction)
    ensures
        action@ == plain(sql@),
{
    let params: Vec<SqlValue> = Vec::new();
    assert(value_views(params@) =~= Seq::<ValueView>::empty());
    DbAction::Execute { sql: sql.to_owned(), params: Params::Positional(params) }
}

/// Requests to be made in order on one of the connections. The first that
/// fails ends the operation.
#[derive(Debug)]
pub struct DbPlan {
    /// The number of the connection.
    pub conn: u32,
    /// The requests.
    pub actions: Vec<DbAction>,
}

/// A query on one of the connections, without values.
#[derive(Debug)]
pub struct DbQuery {
    /// The number of the connection.
    pub conn: u32,
    /// The query.
    pub sql: String,
}

/// What a request to a database says is what it is made of.
pub proof fn law_database_requests_say_what_they_are(
    action: DbAction,
    params: Params,
    actions: Seq<DbAction>,
    i: int,
)
    ensures
        match action {
            DbAction::Begin => action@ is Begin,
            DbAction::Execute { sql, params } => action@ == (DbActionView::Execute {
                sql: sql@,
                params: params@,
            }),
            DbAction::Commit => action@ is Commit,
        },
        match params {
            Params::Positional(values) => {
                &&& params@ is Positional
                &&& params@->Positional_0.len() == values@.len()
                &&& 0 <= i < values@.len() ==> params@->Positional_0[i] == values@[i]@
            },
            Params::Named(values) => {
                &&& params@ is Named
                &&& params@->Named_0.len() == values@.len()
                &&& 0 <= i < values@.len() ==> params@->Named_0[i] == (
                    values@[i].0@,
                    values@[i].1@,
                )
            },
        },
        db_action_views(actions).len() == actions.len(),
        0 <= i < actions.len() ==> db_action_views(actions)[i] == actions[i]@,
{
}

} // verus!
