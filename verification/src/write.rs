//! Statements that change the catalog.
//!
//! Every change is a list of statements with parameters, to be run in one
//! transaction. A statement that aims at one row picks it by its smallest
//! `rowid`, since the database takes no `LIMIT` on `UPDATE` and `DELETE`.
//! The texts of peers and endpoints stand inside JSON literals as they are:
//! callers hand in validated values only.

use vstd::prelude::*;
use vstd::string::*;
use smallvec::SmallVec;
use time::UtcDateTime;
use crate::endpoint::{Endpoint, EndpointView};
use crate::icao::{code_text, IcaoCode};
use crate::ip::{IpAddr, Peer};
use crate::text::{decimal, push_decimal, push_signed_decimal, signed_decimal};
use crate::tokens::{encodable, encoded_text, TokenSet};

verus! {

/// A value bound to a `?` of a statement.
#[derive(Debug, Clone, PartialEq, Eq)]
pub enum SqliteParam {
    Null,
    Integer(i64),
    Text(String),
}

/// One statement for the database.
#[derive(Debug, Clone, PartialEq, Eq)]
pub enum Statement {
    /// A statement without parameters.
    Simple(String),
    /// A statement and the values of its `?`, in their order.
    WithParams(String, Vec<SqliteParam>),
}

/// What a parameter holds.
pub enum ParamView {
    Null,
    Integer(i64),
    Text(Seq<char>),
}

/// What a statement holds.
pub enum StatementView {
    Simple(Seq<char>),
    WithParams(Seq<char>, Seq<ParamView>),
}

impl View for SqliteParam {
    type V = ParamView;

    open spec fn view(&self) -> ParamView {
        match self {
            SqliteParam::Null => ParamView::Null,
            SqliteParam::Integer(i) => ParamView::Integer(*i),
            SqliteParam::Text(text) => ParamView::Text(text@),
        }
    }
}

/// What each of the parameters holds.
pub open spec fn param_views(params: Seq<SqliteParam>) -> Seq<ParamView> {
    Seq::new(params.len(), |i: int| params[i]@)
}

impl View for Statement {
    type V = StatementView;

    open spec fn view(&self) -> StatementView {
        match self {
            Statement::Simple(query) => StatementView::Simple(query@),
            Statement::WithParams(query, params) => StatementView::WithParams(
                query@,
                param_views(params@),
            ),
        }
    }
}

/// What each of the statements holds.
pub open spec fn statement_views(statements: Seq<Statement>) -> Seq<StatementView> {
    Seq::new(statements.len(), |i: int| statements[i]@)
}

/// A list of statements; the first eight are held in place, without an allocation.
#[verifier::external_body]
pub struct Statements {
    inner: SmallVec<[Statement; 8]>,
}

/// The statements of a list, in the order in which they were added.
pub uninterp spec fn listed(statements: Statements) -> Seq<StatementView>;

/// `SmallVec::new` gives an empty list.
#[verifier::external_body]
fn empty_list() -> (r: Statements)
    ensures
        listed(r) == Seq::<StatementView>::empty(),
{
    Statements { inner: SmallVec::new() }
}

/// `SmallVec::push` appends the statement to the list.
#[verifier::external_body]
fn push_statement(statements: &mut Statements, statement: Statement)
    ensures
        listed(*final(statements)) == listed(*old(statements)).push(statement@),
{
    statements.inner.push(statement)
}

/// `SmallVec::as_slice` gives the statements of the list in their order.
#[verifier::external_body]
fn list_as_slice(statements: &Statements) -> (r: &[Statement])
    ensures
        statement_views(r@) == listed(*statements),
{
    statements.inner.as_slice()
}

/// `SmallVec::clear` removes every statement from the list.
#[verifier::external_body]
fn clear_list(statements: &mut Statements)
    ensures
        listed(*final(statements)) == Seq::<StatementView>::empty(),
{
    statements.inner.clear()
}

impl Statements {
    /// An empty list.
    pub fn new() -> (r: Self)
        ensures
            listed(r) == Seq::<StatementView>::empty(),
    {
        empty_list()
    }

    /// The statements of the list, in the order in which they were added.
    pub fn as_slice(&self) -> (r: &[Statement])
        ensures
            statement_views(r@) == listed(*self),
    {
        list_as_slice(self)
    }

    /// The number of statements in the list.
    pub fn len(&self) -> (r: usize)
        ensures
            r == listed(*self).len(),
    {
        let slice = list_as_slice(self);
        assert(statement_views(slice@).len() == slice@.len());
        slice.len()
    }

    /// Whether the list holds no statement.
    pub fn is_empty(&self) -> (r: bool)
        ensures
            r == (listed(*self).len() == 0),
    {
        self.len() == 0
    }

    /// Removes every statement from the list.
    pub fn clear(&mut self)
        ensures
            listed(*final(self)) == Seq::<StatementView>::empty(),
    {
        clear_list(self)
    }
}

/// A value that can be bound to a `?` of a statement.
pub trait ToSqlParam {
    /// Whether the value can be written as a parameter.
    spec fn sql_ready(&self) -> bool;

    /// The parameter that stands for the value.
    spec fn sql_param(&self) -> ParamView;

    /// The parameter that stands for the value.
    fn to_sql(&self) -> (r: SqliteParam)
        requires
            self.sql_ready(),
        ensures
            r@ == self.sql_param(),
    ;
}

/// The parameter of a token set: nothing for the empty set, else its text.
pub open spec fn token_param(tokens: Seq<Seq<u8>>) -> ParamView {
    match encoded_text(tokens) {
        None => ParamView::Null,
        Some(text) => ParamView::Text(text),
    }
}

impl ToSqlParam for TokenSet {
    open spec fn sql_ready(&self) -> bool {
        encodable(self.ordered())
    }

    open spec fn sql_param(&self) -> ParamView {
        token_param(self.ordered())
    }

    /// The set as one text cell: its compact binary form in base64, since
    /// the database holds no arrays and binary data is awkward in JSON.
    fn to_sql(&self) -> (r: SqliteParam) {
        match self.encode() {
            None => SqliteParam::Null,
            Some(text) => SqliteParam::Text(text),
        }
    }
}

impl ToSqlParam for IcaoCode {
    open spec fn sql_ready(&self) -> bool {
        true
    }

    open spec fn sql_param(&self) -> ParamView {
        ParamView::Text(code_text(self@))
    }

    fn to_sql(&self) -> (r: SqliteParam) {
        SqliteParam::Text(self.to_text())
    }
}

impl ToSqlParam for Endpoint {
    open spec fn sql_ready(&self) -> bool {
        true
    }

    open spec fn sql_param(&self) -> ParamView {
        ParamView::Text(self@.text())
    }

    fn to_sql(&self) -> (r: SqliteParam) {
        SqliteParam::Text(self.to_text())
    }
}

impl ToSqlParam for IpAddr {
    open spec fn sql_ready(&self) -> bool {
        true
    }

    open spec fn sql_param(&self) -> ParamView {
        ParamView::Text(self@.text())
    }

    /// The canonical text of the address.
    fn to_sql(&self) -> (r: SqliteParam) {
        SqliteParam::Text(self.to_text())
    }
}

impl ToSqlParam for Peer {
    open spec fn sql_ready(&self) -> bool {
        true
    }

    open spec fn sql_param(&self) -> ParamView {
        ParamView::Text(self.ip_text())
    }

    /// The peer's address: the catalog knows a peer by its address alone.
    fn to_sql(&self) -> (r: SqliteParam) {
        SqliteParam::Text(self.ip_to_text())
    }
}

/// The statement that adds a server for a peer, or adds the peer to the
/// contributors of a server that is known under the same region.
pub open spec fn upsert_server_query(peer_ip: Seq<char>) -> Seq<char> {
    "INSERT INTO servers(endpoint, icao, tokens, contributors, cont_update) VALUES (?, ?, ?, jsonb('{\""@
        + peer_ip
        + "\":{}}'), unixepoch('now')) ON CONFLICT(endpoint) DO UPDATE SET contributors = jsonb_patch(contributors, '{\""@
        + peer_ip + "\":{}}'), cont_update = unixepoch('now') WHERE excluded.icao = servers.icao"@
}

/// The statement that adds a peer with one server, or adds the server to
/// those of a peer that is known under the same region.
pub open spec fn upsert_dc_query(server: Seq<char>) -> Seq<char> {
    "INSERT INTO dc(ip, port, icao, servers) VALUES (?, ?, ?, jsonb('{\""@ + server
        + "\":{}}')) ON CONFLICT(ip) DO UPDATE SET servers = jsonb_patch(servers, '{\""@ + server
        + "\":{}}') WHERE excluded.icao = dc.icao"@
}

/// The statement that deletes a server.
pub open spec fn delete_server_query() -> Seq<char> {
    "DELETE FROM servers WHERE rowid = (SELECT MIN(rowid) FROM servers WHERE endpoint = ?)"@
}

/// The statement that takes a server from those of a peer.
pub open spec fn forget_server_query(server: Seq<char>) -> Seq<char> {
    "UPDATE dc SET servers = jsonb_patch(servers, '{\""@ + server
        + "\":null}') WHERE rowid = (SELECT MIN(rowid) FROM dc WHERE ip = ?)"@
}

/// The statement that takes a peer from the contributors of a server.
pub open spec fn withdraw_query(peer_ip: Seq<char>) -> Seq<char> {
    "UPDATE servers SET contributors = jsonb_patch(contributors, '{\""@ + peer_ip
        + "\":null}'), cont_update = unixepoch('now') WHERE rowid = (SELECT MIN(rowid) FROM servers WHERE endpoint = ?)"@
}

/// The statement that sets the first column, the second, or both, in that order.
pub open spec fn update_query(
    head: Seq<char>,
    first: Seq<char>,
    second: Seq<char>,
    tail: Seq<char>,
    has_first: bool,
    has_second: bool,
) -> Seq<char> {
    head + (if has_first {
        first
    } else {
        Seq::empty()
    }) + (if has_first && has_second {
        ", "@
    } else {
        Seq::empty()
    }) + (if has_second {
        second
    } else {
        Seq::empty()
    }) + tail
}

/// The statement that sets the region, the tokens, or both, of a server.
pub open spec fn update_server_query(has_icao: bool, has_tokens: bool) -> Seq<char> {
    update_query(
        "UPDATE servers SET "@,
        "icao = ?"@,
        "tokens = ?"@,
        " WHERE rowid = (SELECT MIN(rowid) FROM servers WHERE endpoint = ?)"@,
        has_icao,
        has_tokens,
    )
}

/// The statement that deletes the servers without contributors whose last
/// change of contributors is more than `max_age` seconds old.
pub open spec fn reap_query(max_age: u64) -> Seq<char> {
    "DELETE FROM servers WHERE length(contributors) <= 1 AND unixepoch('now') - cont_update > "@
        + decimal(max_age as nat)
}

/// The statement that adds a peer without servers.
pub open spec fn insert_dc_query() -> Seq<char> {
    "INSERT INTO dc(ip, port, icao, servers) VALUES (?, ?, ?, jsonb('{}'))"@
}

/// The statement that takes a peer from the contributors of each of its
/// servers and dates the change at `time`, in seconds since the epoch.
pub open spec fn orphan_query(peer_ip: Seq<char>, time: i64) -> Seq<char> {
    "WITH sj AS (SELECT server.key FROM dc JOIN json_each(dc.servers) AS server WHERE ip = '"@
        + peer_ip
        + "' LIMIT 1) UPDATE servers SET contributors = jsonb_patch(s.contributors, '{\""@
        + peer_ip + "\":null}'), cont_update = "@ + signed_decimal(time as int)
        + " FROM servers s LEFT JOIN sj ON s.endpoint = sj.key"@
}

/// The statement that deletes a peer.
pub open spec fn delete_dc_query() -> Seq<char> {
    "DELETE FROM dc WHERE rowid = (SELECT MIN(rowid) FROM dc WHERE ip = ?)"@
}

/// The statement that sets the port, the region, or both, of a peer.
pub open spec fn update_dc_query(has_port: bool, has_icao: bool) -> Seq<char> {
    update_query(
        "UPDATE dc SET "@,
        "port = ?"@,
        "icao = ?"@,
        " WHERE rowid = (SELECT MIN(rowid) FROM dc WHERE ip = ?)"@,
        has_port,
        has_icao,
    )
}

/// The statement that sets the one filter.
pub open spec fn upsert_filter_query() -> Seq<char> {
    "INSERT INTO filter(id, filter) VALUES (9999, ?) ON CONFLICT(id) DO UPDATE SET filter = excluded.filter"@
}

/// The parameter that holds a region code.
pub open spec fn icao_param(icao: Seq<u8>) -> ParamView {
    ParamView::Text(code_text(icao))
}

/// The two statements by which `peer` contributes a server.
pub open spec fn upsert_statements(
    peer: Peer,
    endpoint: EndpointView,
    icao: Seq<u8>,
    tokens: Seq<Seq<u8>>,
) -> Seq<StatementView> {
    seq![
        StatementView::WithParams(
            upsert_server_query(peer.ip_text()),
            seq![ParamView::Text(endpoint.text()), icao_param(icao), token_param(tokens)],
        ),
        StatementView::WithParams(
            upsert_dc_query(endpoint.text()),
            seq![
                ParamView::Text(peer.ip_text()),
                ParamView::Integer(peer.port as i64),
                icao_param(icao),
            ],
        ),
    ]
}

/// The two statements that delete a server, whoever else contributes it.
pub open spec fn remove_immediate_statements(peer: Peer, endpoint: EndpointView) -> Seq<
    StatementView,
> {
    seq![
        StatementView::WithParams(delete_server_query(), seq![ParamView::Text(endpoint.text())]),
        StatementView::WithParams(
            forget_server_query(endpoint.text()),
            seq![ParamView::Text(peer.ip_text())],
        ),
    ]
}

/// The two statements by which `peer` stops contributing a server.
pub open spec fn remove_deferred_statements(peer: Peer, endpoint: EndpointView) -> Seq<
    StatementView,
> {
    seq![
        StatementView::WithParams(
            withdraw_query(peer.ip_text()),
            seq![ParamView::Text(endpoint.text())],
        ),
        StatementView::WithParams(
            forget_server_query(endpoint.text()),
            seq![ParamView::Text(peer.ip_text())],
        ),
    ]
}

/// The parameters of an update: those of the columns that are set, then the key.
pub open spec fn update_params(first: Option<ParamView>, second: Option<ParamView>, key: ParamView) -> Seq<
    ParamView,
> {
    (match first {
        Some(p) => seq![p],
        None => Seq::empty(),
    }) + (match second {
        Some(p) => seq![p],
        None => Seq::empty(),
    }).push(key)
}

/// The statement that sets the region, the tokens, or both, of a server.
pub open spec fn update_server_statement(
    endpoint: EndpointView,
    icao: Option<Seq<u8>>,
    tokens: Option<Seq<Seq<u8>>>,
) -> StatementView {
    StatementView::WithParams(
        update_server_query(icao is Some, tokens is Some),
        update_params(
            match icao {
                Some(icao) => Some(icao_param(icao)),
                None => None,
            },
            match tokens {
                Some(tokens) => Some(token_param(tokens)),
                None => None,
            },
            ParamView::Text(endpoint.text()),
        ),
    )
}

/// The two statements that remove a peer: the first takes it from the
/// contributors of its servers, the second deletes it.
pub open spec fn remove_dc_statements(peer: Peer, time: i64) -> Seq<StatementView> {
    seq![
        StatementView::Simple(orphan_query(peer.ip_text(), time)),
        StatementView::WithParams(delete_dc_query(), seq![ParamView::Text(peer.ip_text())]),
    ]
}

/// The statement that sets the port, the region, or both, of a peer.
pub open spec fn update_dc_statement(peer: Peer, port: Option<u16>, icao: Option<Seq<u8>>) -> StatementView {
    StatementView::WithParams(
        update_dc_query(port is Some, icao is Some),
        update_params(
            match port {
                Some(port) => Some(ParamView::Integer(port as i64)),
                None => None,
            },
            match icao {
                Some(icao) => Some(icao_param(icao)),
                None => None,
            },
            ParamView::Text(peer.ip_text()),
        ),
    )
}

/// The columns of a server that an update sets.
pub struct UpdateBuilder<'s> {
    ep: &'s Endpoint,
    icao: Option<IcaoCode>,
    tokens: Option<&'s TokenSet>,
}

impl<'s> UpdateBuilder<'s> {
    /// The server that is updated.
    pub closed spec fn endpoint(&self) -> EndpointView {
        self.ep@
    }

    /// The region that is set, if one is.
    pub closed spec fn icao(&self) -> Option<Seq<u8>> {
        match self.icao {
            Some(icao) => Some(icao@),
            None => None,
        }
    }

    /// The tokens that are set, if any are.
    pub closed spec fn tokens(&self) -> Option<Seq<Seq<u8>>> {
        match self.tokens {
            Some(tokens) => Some(tokens.ordered()),
            None => None,
        }
    }

    /// An update of the server at `ep` that sets nothing yet.
    pub fn new(ep: &'s Endpoint) -> (r: Self)
        ensures
            r.endpoint() == ep@,
            r.icao() is None,
            r.tokens() is None,
    {
        Self { ep, icao: None, tokens: None }
    }

    /// The update that sets the region as well.
    pub fn update_icao(self, icao: IcaoCode) -> (r: Self)
        ensures
            r.endpoint() == self.endpoint(),
            r.icao() == Some(icao@),
            r.tokens() == self.tokens(),
    {
        Self { ep: self.ep, icao: Some(icao), tokens: self.tokens }
    }

    /// The update that sets the tokens as well.
    pub fn update_tokens(self, ts: &'s TokenSet) -> (r: Self)
        ensures
            r.endpoint() == self.endpoint(),
            r.icao() == self.icao(),
            r.tokens() == Some(ts.ordered()),
    {
        Self { ep: self.ep, icao: self.icao, tokens: Some(ts) }
    }

    /// The number of columns that the update sets.
    pub fn params(&self) -> (r: usize)
        ensures
            r == (if self.icao() is Some {
                1nat
            } else {
                0nat
            }) + (if self.tokens() is Some {
                1nat
            } else {
                0nat
            }),
    {
        let mut count: usize = 0;
        if self.icao.is_some() {
            count += 1
        }
        if self.tokens.is_some() {
            count += 1
        }
        count
    }
}

/// Builds the statements of one peer's changes to the servers.
pub struct Server<'s> {
    pub peer: Peer,
    pub statements: &'s mut Statements,
}

impl<'s> Server<'s> {
    /// A builder that adds the changes of `peer` to `statements`.
    pub fn for_peer(peer: Peer, statements: &'s mut Statements) -> (r: Self)
        ensures
            r.peer == peer,
            *r.statements == *old(statements),
            *final(statements) == *final(r.statements),
    {
        Self { peer, statements }
    }

    /// Adds the statements by which the peer contributes a server: the
    /// first adds the server or, where it is known under the same region,
    /// the peer to its contributors; the second does the same for the peer
    /// and its servers. A server that is known under another region is left
    /// as it is.
    pub fn upsert(&mut self, endpoint: &Endpoint, icao: IcaoCode, tokens: &TokenSet)
        requires
            encodable(tokens.ordered()),
        ensures
            final(self).peer == old(self).peer,
            *final(final(self).statements) == *final(old(self).statements),
            listed(*final(self).statements) == listed(*old(self).statements) + upsert_statements(
                old(self).peer,
                endpoint@,
                icao@,
                tokens.ordered(),
            ),
    {
        let peer_ip = self.peer.ip_to_text();
        let server = endpoint.to_text();

        let mut params: Vec<SqliteParam> = Vec::with_capacity(4);
        params.push(endpoint.to_sql());
        params.push(icao.to_sql());
        params.push(tokens.to_sql());

        let mut query = String::from_str(
            "INSERT INTO servers(endpoint, icao, tokens, contributors, cont_update) VALUES (?, ?, ?, jsonb('{\"",
        );
        query.append(peer_ip.as_str());
        query.append(
            "\":{}}'), unixepoch('now')) ON CONFLICT(endpoint) DO UPDATE SET contributors = jsonb_patch(contributors, '{\"",
        );
        query.append(peer_ip.as_str());
        query.append(
            "\":{}}'), cont_update = unixepoch('now') WHERE excluded.icao = servers.icao",
        );
        proof {
            assert(query@ =~= upsert_server_query(self.peer.ip_text()));
            assert(param_views(params@) =~= seq![
                ParamView::Text(endpoint@.text()),
                icao_param(icao@),
                token_param(tokens.ordered()),
            ]);
        }
        let first = Statement::WithParams(query, params);

        let mut query = String::from_str(
            "INSERT INTO dc(ip, port, icao, servers) VALUES (?, ?, ?, jsonb('{\"",
        );
        query.append(server.as_str());
        query.append(
            "\":{}}')) ON CONFLICT(ip) DO UPDATE SET servers = jsonb_patch(servers, '{\"",
        );
        query.append(server.as_str());
        query.append("\":{}}') WHERE excluded.icao = dc.icao");
        let mut params: Vec<SqliteParam> = Vec::with_capacity(3);
        params.push(SqliteParam::Text(peer_ip));
        params.push(SqliteParam::Integer(self.peer.port as i64));
        params.push(icao.to_sql());
        proof {
            assert(query@ =~= upsert_dc_query(endpoint@.text()));
            assert(param_views(params@) =~= seq![
                ParamView::Text(self.peer.ip_text()),
                ParamView::Integer(self.peer.port as i64),
                icao_param(icao@),
            ]);
        }
        let second = Statement::WithParams(query, params);

        proof {
            let expected = upsert_statements(self.peer, endpoint@, icao@, tokens.ordered());
            assert(listed(*self.statements).push(first@).push(second@) =~= listed(
                *self.statements,
            ) + expected);
        }
        push_statement(self.statements, first);
        push_statement(self.statements, second);
    }

    /// Adds the statements that delete a server at once, however many
    /// peers contribute it, and take it from the servers of the peer.
    pub fn remove_immediate(&mut self, endpoint: &Endpoint)
        ensures
            final(self).peer == old(self).peer,
            *final(final(self).statements) == *final(old(self).statements),
            listed(*final(self).statements) == listed(*old(self).statements)
                + remove_immediate_statements(old(self).peer, endpoint@),
    {
        let server = endpoint.to_text();
        let mut params: Vec<SqliteParam> = Vec::with_capacity(1);
        params.push(endpoint.to_sql());
        assert(param_views(params@) =~= seq![ParamView::Text(endpoint@.text())]);
        let first = Statement::WithParams(
            String::from_str(
                "DELETE FROM servers WHERE rowid = (SELECT MIN(rowid) FROM servers WHERE endpoint = ?)",
            ),
            params,
        );
        let second = self.forget_server(server);
        proof {
            let expected = remove_immediate_statements(self.peer, endpoint@);
            assert(listed(*self.statements).push(first@).push(second@) =~= listed(
                *self.statements,
            ) + expected);
        }
        push_statement(self.statements, first);
        push_statement(self.statements, second);
    }

    /// The statement that takes the server of the given text from those of the peer.
    fn forget_server(&self, server: String) -> (r: Statement)
        ensures
            r@ == StatementView::WithParams(
                forget_server_query(server@),
                seq![ParamView::Text(self.peer.ip_text())],
            ),
    {
        let mut query = String::from_str("UPDATE dc SET servers = jsonb_patch(servers, '{\"");
        query.append(server.as_str());
        query.append("\":null}') WHERE rowid = (SELECT MIN(rowid) FROM dc WHERE ip = ?)");
        let mut params: Vec<SqliteParam> = Vec::with_capacity(1);
        params.push(self.peer.to_sql());
        proof {
            assert(query@ =~= forget_server_query(server@));
            assert(param_views(params@) =~= seq![ParamView::Text(self.peer.ip_text())]);
        }
        Statement::WithParams(query, params)
    }

    /// Adds the statements by which the peer stops contributing a server.
    /// The server stays; it can be reaped once nobody contributes it.
    pub fn remove_deferred(&mut self, endpoint: &Endpoint)
        ensures
            final(self).peer == old(self).peer,
            *final(final(self).statements) == *final(old(self).statements),
            listed(*final(self).statements) == listed(*old(self).statements)
                + remove_deferred_statements(old(self).peer, endpoint@),
    {
        let peer_ip = self.peer.ip_to_text();
        let mut query = String::from_str(
            "UPDATE servers SET contributors = jsonb_patch(contributors, '{\"",
        );
        query.append(peer_ip.as_str());
        query.append(
            "\":null}'), cont_update = unixepoch('now') WHERE rowid = (SELECT MIN(rowid) FROM servers WHERE endpoint = ?)",
        );
        let mut params: Vec<SqliteParam> = Vec::with_capacity(1);
        params.push(endpoint.to_sql());
        proof {
            assert(query@ =~= withdraw_query(self.peer.ip_text()));
            assert(param_views(params@) =~= seq![ParamView::Text(endpoint@.text())]);
        }
        let first = Statement::WithParams(query, params);
        let second = self.forget_server(endpoint.to_text());
        proof {
            let expected = remove_deferred_statements(self.peer, endpoint@);
            assert(listed(*self.statements).push(first@).push(second@) =~= listed(
                *self.statements,
            ) + expected);
        }
        push_statement(self.statements, first);
        push_statement(self.statements, second);
    }

    /// Adds the statement that sets one or both columns of a server.
    pub fn update(&mut self, update: UpdateBuilder<'_>)
        requires
            update.icao() is Some || update.tokens() is Some,
            update.tokens() is Some ==> encodable(update.tokens()->Some_0),
        ensures
            final(self).peer == old(self).peer,
            *final(final(self).statements) == *final(old(self).statements),
            listed(*final(self).statements) == listed(*old(self).statements).push(
                update_server_statement(update.endpoint(), update.icao(), update.tokens()),
            ),
    {
        let mut query = String::from_str("UPDATE servers SET ");
        let mut params: Vec<SqliteParam> = Vec::with_capacity(update.params() + 1);

        if let Some(icao) = update.icao {
            query.append("icao = ?");
            params.push(icao.to_sql());
        }
        if let Some(ts) = update.tokens {
            if params.len() > 0 {
                query.append(", ");
            }
            query.append("tokens = ?");
            params.push(ts.to_sql());
        }
        // One row is meant, yet the database takes no LIMIT here
        query.append(" WHERE rowid = (SELECT MIN(rowid) FROM servers WHERE endpoint = ?)");
        params.push(update.ep.to_sql());

        proof {
            assert(query@ =~= update_server_query(update.icao() is Some, update.tokens() is Some));
            assert(param_views(params@) =~= update_params(
                match update.icao() {
                    Some(icao) => Some(icao_param(icao)),
                    None => None,
                },
                match update.tokens() {
                    Some(tokens) => Some(token_param(tokens)),
                    None => None,
                },
                ParamView::Text(update.endpoint().text()),
            ));
        }
        push_statement(self.statements, Statement::WithParams(query, params));
    }

    /// Adds the statement that deletes the servers that nobody contributes
    /// and whose contributors last changed more than `max_age` seconds ago.
    /// The peer plays no part in it.
    pub fn reap_old(&mut self, max_age: u64)
        ensures
            final(self).peer == old(self).peer,
            *final(final(self).statements) == *final(old(self).statements),
            listed(*final(self).statements) == listed(*old(self).statements).push(
                StatementView::Simple(reap_query(max_age)),
            ),
    {
        let mut query = String::from_str(
            "DELETE FROM servers WHERE length(contributors) <= 1 AND unixepoch('now') - cont_update > ",
        );
        push_decimal(&mut query, max_age);
        push_statement(self.statements, Statement::Simple(query));
    }
}

/// `UtcDateTime::now` reads the clock, and `unix_timestamp` gives its
/// seconds since the epoch. Nothing is known of the result.
#[verifier::external_body]
fn unix_now() -> i64 {
    UtcDateTime::now().unix_timestamp()
}

/// Builds the statements of changes to the peers.
pub struct Datacenter<'s>(pub &'s mut Statements);

impl<'s> Datacenter<'s> {
    /// Adds the statement that adds a peer without servers.
    pub fn insert(&mut self, peer: Peer, port: u16, icao: IcaoCode)
        ensures
            *final(final(self).0) == *final(old(self).0),
            listed(*final(self).0) == listed(*old(self).0).push(
                StatementView::WithParams(
                    insert_dc_query(),
                    seq![
                        ParamView::Text(peer.ip_text()),
                        ParamView::Integer(port as i64),
                        icao_param(icao@),
                    ],
                ),
            ),
    {
        let mut params: Vec<SqliteParam> = Vec::with_capacity(3);
        params.push(peer.to_sql());
        params.push(SqliteParam::Integer(port as i64));
        params.push(icao.to_sql());
        assert(param_views(params@) =~= seq![
            ParamView::Text(peer.ip_text()),
            ParamView::Integer(port as i64),
            icao_param(icao@),
        ]);
        push_statement(
            self.0,
            Statement::WithParams(
                String::from_str("INSERT INTO dc(ip, port, icao, servers) VALUES (?, ?, ?, jsonb('{}'))"),
                params,
            ),
        );
    }

    /// Adds the statements that remove a peer: it is taken from the
    /// contributors of the servers it still lists, which can be reaped once
    /// nobody contributes them, and then deleted. The change is dated at
    /// `time`, in seconds since the epoch.
    pub fn remove_at(&mut self, peer: Peer, time: i64)
        ensures
            *final(final(self).0) == *final(old(self).0),
            listed(*final(self).0) == listed(*old(self).0) + remove_dc_statements(peer, time),
    {
        let peer_ip = peer.ip_to_text();
        let mut query = String::from_str(
            "WITH sj AS (SELECT server.key FROM dc JOIN json_each(dc.servers) AS server WHERE ip = '",
        );
        query.append(peer_ip.as_str());
        query.append(
            "' LIMIT 1) UPDATE servers SET contributors = jsonb_patch(s.contributors, '{\"",
        );
        query.append(peer_ip.as_str());
        query.append("\":null}'), cont_update = ");
        push_signed_decimal(&mut query, time);
        query.append(" FROM servers s LEFT JOIN sj ON s.endpoint = sj.key");
        assert(query@ =~= orphan_query(peer.ip_text(), time));
        let first = Statement::Simple(query);

        let mut params: Vec<SqliteParam> = Vec::with_capacity(1);
        params.push(SqliteParam::Text(peer_ip));
        assert(param_views(params@) =~= seq![ParamView::Text(peer.ip_text())]);
        let second = Statement::WithParams(
            String::from_str("DELETE FROM dc WHERE rowid = (SELECT MIN(rowid) FROM dc WHERE ip = ?)"),
            params,
        );
        proof {
            assert(listed(*self.0).push(first@).push(second@) =~= listed(*self.0)
                + remove_dc_statements(peer, time));
        }
        push_statement(self.0, first);
        push_statement(self.0, second);
    }

    /// Adds the statements that remove a peer, dated at `update_time` or,
    /// where none is given, at the time of the call.
    pub fn remove(&mut self, peer: Peer, update_time: Option<i64>)
        ensures
            *final(final(self).0) == *final(old(self).0),
            exists|time: i64|
                (update_time is Some ==> time == update_time->Some_0) && listed(*final(self).0)
                    == listed(*old(self).0) + #[trigger] remove_dc_statements(peer, time),
    {
        let time = match update_time {
            Some(time) => time,
            None => unix_now(),
        };
        self.remove_at(peer, time);
    }

    /// Adds the statement that sets the port, the region, or both, of a peer.
    pub fn update(&mut self, peer: Peer, port: Option<u16>, icao: Option<IcaoCode>)
        requires
            port is Some || icao is Some,
        ensures
            *final(final(self).0) == *final(old(self).0),
            listed(*final(self).0) == listed(*old(self).0).push(
                update_dc_statement(
                    peer,
                    port,
                    match icao {
                        Some(icao) => Some(icao@),
                        None => None,
                    },
                ),
            ),
    {
        let mut query = String::from_str("UPDATE dc SET ");
        let mut params: Vec<SqliteParam> = Vec::with_capacity(3);

        if let Some(port) = port {
            query.append("port = ?");
            params.push(SqliteParam::Integer(port as i64));
        }
        if let Some(icao) = icao {
            if params.len() > 0 {
                query.append(", ");
            }
            query.append("icao = ?");
            params.push(icao.to_sql());
        }
        query.append(" WHERE rowid = (SELECT MIN(rowid) FROM dc WHERE ip = ?)");
        params.push(peer.to_sql());

        proof {
            assert(query@ =~= update_dc_query(port is Some, icao is Some));
            assert(param_views(params@) =~= update_params(
                match port {
                    Some(port) => Some(ParamView::Integer(port as i64)),
                    None => None,
                },
                match icao {
                    Some(icao) => Some(icao_param(icao@)),
                    None => None,
                },
                ParamView::Text(peer.ip_text()),
            ));
        }
        push_statement(self.0, Statement::WithParams(query, params));
    }
}

/// Builds the statement that sets the filter.
pub struct Filter<'s>(pub &'s mut Statements);

impl<'s> Filter<'s> {
    /// Adds the statement that sets the one filter, whether or not one is set.
    pub fn upsert(&mut self, filter: &str)
        ensures
            *final(final(self).0) == *final(old(self).0),
            listed(*final(self).0) == listed(*old(self).0).push(
                StatementView::WithParams(upsert_filter_query(), seq![ParamView::Text(filter@)]),
            ),
    {
        let mut params: Vec<SqliteParam> = Vec::with_capacity(1);
        params.push(SqliteParam::Text(String::from_str(filter)));
        assert(param_views(params@) =~= seq![ParamView::Text(filter@)]);
        push_statement(
            self.0,
            Statement::WithParams(
                String::from_str(
                    "INSERT INTO filter(id, filter) VALUES (9999, ?) ON CONFLICT(id) DO UPDATE SET filter = excluded.filter",
                ),
                params,
            ),
        );
    }
}

} // verus!
