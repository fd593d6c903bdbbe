use corrosion::endpoint::{AddressKind, Endpoint};
use corrosion::icao::IcaoCode;
use corrosion::ip::{IpAddr, Peer};
use corrosion::tokens::TokenSet;
use corrosion::write::{
    Datacenter, Filter, Server, SqliteParam, Statement, Statements, ToSqlParam, UpdateBuilder,
};

fn peer() -> Peer {
    Peer::new(IpAddr::V4([10, 0, 0, 7]), 8999)
}

fn text(s: &str) -> SqliteParam {
    SqliteParam::Text(s.to_owned())
}

#[test]
fn upsert_gives_two_statements() {
    let mut v = Statements::new();
    let mut s = Server::for_peer(peer(), &mut v);
    let ep = Endpoint::new(AddressKind::Ip(IpAddr::V4([1, 2, 3, 4])), 2002);
    let tokens = TokenSet::from_tokens(vec![vec![20, 20]]);
    s.upsert(&ep, IcaoCode::new_testing(*b"YYYY"), &tokens);
    assert_eq!(
        v.as_slice(),
        &[
            Statement::WithParams(
                "INSERT INTO servers(endpoint, icao, tokens, contributors, cont_update) VALUES (?, ?, ?, jsonb('{\"::ffff:10.0.0.7\":{}}'), unixepoch('now')) ON CONFLICT(endpoint) DO UPDATE SET contributors = jsonb_patch(contributors, '{\"::ffff:10.0.0.7\":{}}'), cont_update = unixepoch('now') WHERE excluded.icao = servers.icao".to_owned(),
                vec![text("|1.2.3.4:2002"), text("YYYY"), text("ARQU")],
            ),
            Statement::WithParams(
                "INSERT INTO dc(ip, port, icao, servers) VALUES (?, ?, ?, jsonb('{\"|1.2.3.4:2002\":{}}')) ON CONFLICT(ip) DO UPDATE SET servers = jsonb_patch(servers, '{\"|1.2.3.4:2002\":{}}') WHERE excluded.icao = dc.icao".to_owned(),
                vec![text("::ffff:10.0.0.7"), SqliteParam::Integer(8999), text("YYYY")],
            ),
        ]
    );
}

#[test]
fn upsert_twice_gives_the_same_statements_again() {
    let mut v = Statements::new();
    let mut s = Server::for_peer(peer(), &mut v);
    let ep = Endpoint::new(AddressKind::Name("game.boop.com".into()), 2005);
    let tokens = TokenSet::new();
    s.upsert(&ep, IcaoCode::new_testing(*b"YYYY"), &tokens);
    s.upsert(&ep, IcaoCode::new_testing(*b"YYYY"), &tokens);
    assert_eq!(v.len(), 4);
    assert_eq!(v.as_slice()[0], v.as_slice()[2]);
    assert_eq!(v.as_slice()[1], v.as_slice()[3]);
    let Statement::WithParams(query, params) = &v.as_slice()[0] else {
        panic!("parameters expected");
    };
    assert!(query.contains("ON CONFLICT(endpoint) DO UPDATE SET"));
    assert_eq!(params[2], SqliteParam::Null);
}

#[test]
fn remove_immediate_deletes_the_row() {
    let mut v = Statements::new();
    let mut s = Server::for_peer(peer(), &mut v);
    let ep = Endpoint::new(AddressKind::Ip(IpAddr::V4([9, 9, 9, 9])), 2003);
    s.remove_immediate(&ep);
    assert_eq!(
        v.as_slice(),
        &[
            Statement::WithParams(
                "DELETE FROM servers WHERE rowid = (SELECT MIN(rowid) FROM servers WHERE endpoint = ?)".to_owned(),
                vec![text("|9.9.9.9:2003")],
            ),
            Statement::WithParams(
                "UPDATE dc SET servers = jsonb_patch(servers, '{\"|9.9.9.9:2003\":null}') WHERE rowid = (SELECT MIN(rowid) FROM dc WHERE ip = ?)".to_owned(),
                vec![text("::ffff:10.0.0.7")],
            ),
        ]
    );
}

#[test]
fn remove_deferred_clears_the_contributor() {
    let mut v = Statements::new();
    let mut s = Server::for_peer(peer(), &mut v);
    let ep = Endpoint::new(AddressKind::Name("a.b".into()), 1);
    s.remove_deferred(&ep);
    assert_eq!(
        v.as_slice(),
        &[
            Statement::WithParams(
                "UPDATE servers SET contributors = jsonb_patch(contributors, '{\"::ffff:10.0.0.7\":null}'), cont_update = unixepoch('now') WHERE rowid = (SELECT MIN(rowid) FROM servers WHERE endpoint = ?)".to_owned(),
                vec![text("a.b:1")],
            ),
            Statement::WithParams(
                "UPDATE dc SET servers = jsonb_patch(servers, '{\"a.b:1\":null}') WHERE rowid = (SELECT MIN(rowid) FROM dc WHERE ip = ?)".to_owned(),
                vec![text("::ffff:10.0.0.7")],
            ),
        ]
    );
}

#[test]
fn update_sets_the_columns_in_order() {
    let ep = Endpoint::new(AddressKind::Name("a.b".into()), 1);
    let tokens = TokenSet::from_tokens(vec![vec![10; 2]]);
    let icao = IcaoCode::new_testing(*b"XXXX");
    let tail = " WHERE rowid = (SELECT MIN(rowid) FROM servers WHERE endpoint = ?)";

    let mut v = Statements::new();
    let mut s = Server::for_peer(peer(), &mut v);
    s.update(UpdateBuilder::new(&ep).update_icao(icao));
    s.update(UpdateBuilder::new(&ep).update_tokens(&tokens));
    s.update(UpdateBuilder::new(&ep).update_tokens(&tokens).update_icao(icao));
    assert_eq!(
        v.as_slice(),
        &[
            Statement::WithParams(
                format!("UPDATE servers SET icao = ?{tail}"),
                vec![text("XXXX"), text("a.b:1")],
            ),
            Statement::WithParams(
                format!("UPDATE servers SET tokens = ?{tail}"),
                vec![text("AQoK"), text("a.b:1")],
            ),
            Statement::WithParams(
                format!("UPDATE servers SET icao = ?, tokens = ?{tail}"),
                vec![text("XXXX"), text("AQoK"), text("a.b:1")],
            ),
        ]
    );
    assert_eq!(UpdateBuilder::new(&ep).params(), 0);
    assert_eq!(UpdateBuilder::new(&ep).update_icao(icao).params(), 1);
}

#[test]
fn reap_old_names_the_age_in_seconds() {
    let mut v = Statements::new();
    let mut s = Server::for_peer(peer(), &mut v);
    s.reap_old(1800);
    s.reap_old(0);
    assert_eq!(
        v.as_slice(),
        &[
            Statement::Simple(
                "DELETE FROM servers WHERE length(contributors) <= 1 AND unixepoch('now') - cont_update > 1800".to_owned()
            ),
            Statement::Simple(
                "DELETE FROM servers WHERE length(contributors) <= 1 AND unixepoch('now') - cont_update > 0".to_owned()
            ),
        ]
    );
}

#[test]
fn datacenter_insert() {
    let mut v = Statements::new();
    let mut dc = Datacenter(&mut v);
    dc.insert(peer(), 2001, IcaoCode::new_testing(*b"YYYY"));
    assert_eq!(
        v.as_slice(),
        &[Statement::WithParams(
            "INSERT INTO dc(ip, port, icao, servers) VALUES (?, ?, ?, jsonb('{}'))".to_owned(),
            vec![text("::ffff:10.0.0.7"), SqliteParam::Integer(2001), text("YYYY")],
        )]
    );
}

#[test]
fn datacenter_remove_at_a_given_time() {
    let mut v = Statements::new();
    let mut dc = Datacenter(&mut v);
    dc.remove(peer(), Some(-5));
    dc.remove_at(peer(), 1700000000);
    let orphan = |t: &str| {
        Statement::Simple(format!(
            "WITH sj AS (SELECT server.key FROM dc JOIN json_each(dc.servers) AS server WHERE ip = '::ffff:10.0.0.7' LIMIT 1) UPDATE servers SET contributors = jsonb_patch(s.contributors, '{{\"::ffff:10.0.0.7\":null}}'), cont_update = {t} FROM servers s LEFT JOIN sj ON s.endpoint = sj.key"
        ))
    };
    let delete = Statement::WithParams(
        "DELETE FROM dc WHERE rowid = (SELECT MIN(rowid) FROM dc WHERE ip = ?)".to_owned(),
        vec![text("::ffff:10.0.0.7")],
    );
    assert_eq!(
        v.as_slice(),
        &[orphan("-5"), delete.clone(), orphan("1700000000"), delete]
    );
}

#[test]
fn datacenter_remove_now() {
    let mut v = Statements::new();
    let mut dc = Datacenter(&mut v);
    dc.remove(peer(), None);
    assert_eq!(v.len(), 2);
    let Statement::Simple(query) = &v.as_slice()[0] else {
        panic!("no parameters expected");
    };
    let stamp: i64 = query
        .split("cont_update = ")
        .nth(1)
        .unwrap()
        .split(' ')
        .next()
        .unwrap()
        .parse()
        .unwrap();
    assert!(stamp > 1_600_000_000);
}

#[test]
fn datacenter_update() {
    let tail = " WHERE rowid = (SELECT MIN(rowid) FROM dc WHERE ip = ?)";
    let icao = IcaoCode::new_testing(*b"ABCD");
    let mut v = Statements::new();
    let mut dc = Datacenter(&mut v);
    dc.update(peer(), Some(1234), None);
    dc.update(peer(), None, Some(icao));
    dc.update(peer(), Some(9876), Some(icao));
    assert_eq!(
        v.as_slice(),
        &[
            Statement::WithParams(
                format!("UPDATE dc SET port = ?{tail}"),
                vec![SqliteParam::Integer(1234), text("::ffff:10.0.0.7")],
            ),
            Statement::WithParams(
                format!("UPDATE dc SET icao = ?{tail}"),
                vec![text("ABCD"), text("::ffff:10.0.0.7")],
            ),
            Statement::WithParams(
                format!("UPDATE dc SET port = ?, icao = ?{tail}"),
                vec![SqliteParam::Integer(9876), text("ABCD"), text("::ffff:10.0.0.7")],
            ),
        ]
    );
}

#[test]
fn filter_upsert() {
    let mut v = Statements::new();
    Filter(&mut v).upsert("a || b");
    assert_eq!(
        v.as_slice(),
        &[Statement::WithParams(
            "INSERT INTO filter(id, filter) VALUES (9999, ?) ON CONFLICT(id) DO UPDATE SET filter = excluded.filter".to_owned(),
            vec![text("a || b")],
        )]
    );
    v.clear();
    assert!(v.is_empty());
}

#[test]
fn parameters_of_values() {
    assert_eq!(TokenSet::new().to_sql(), SqliteParam::Null);
    assert_eq!(IcaoCode::default().to_sql(), text("XXXX"));
    assert_eq!(peer().to_sql(), text("::ffff:10.0.0.7"));
}

#[test]
fn statements_of_a_session() {
    let icao = IcaoCode::new_testing(*b"YYYY");
    let endpoints = [
        Endpoint::new(AddressKind::Ip(IpAddr::V4([1, 2, 3, 4])), 2002),
        Endpoint::new(AddressKind::Ip(IpAddr::V4([9, 9, 9, 9])), 2003),
        Endpoint::new(AddressKind::Ip(IpAddr::V6([0, 0, 0, 0, 0, 0, 0xf0cc, 0xac1a])), 2004),
        Endpoint::new(AddressKind::Name("game.boop.com".into()), 2005),
    ];
    let mut v = Statements::new();

    Datacenter(&mut v).insert(peer(), 2001, icao);
    assert_eq!(v.len(), 1);

    let mut s = Server::for_peer(peer(), &mut v);
    for (i, ep) in endpoints.iter().enumerate() {
        let tokens = TokenSet::from_tokens(vec![vec![(i as u8 + 2) * 10; i + 2]]);
        s.upsert(ep, icao, &tokens);
    }
    s.remove_immediate(&endpoints[1]);
    s.update(UpdateBuilder::new(&endpoints[2]).update_icao(IcaoCode::new_testing(*b"XXXX")));
    assert_eq!(s.peer, peer());
    assert_eq!(v.len(), 1 + 8 + 2 + 1);

    Datacenter(&mut v).remove_at(peer(), 7);
    assert_eq!(v.len(), 14);

    let queries: Vec<&str> = v
        .as_slice()
        .iter()
        .map(|s| match s {
            Statement::Simple(query) => query.as_str(),
            Statement::WithParams(query, _) => query.as_str(),
        })
        .collect();
    assert!(queries[0].starts_with("INSERT INTO dc("));
    for pair in queries[1..9].chunks(2) {
        assert!(pair[0].starts_with("INSERT INTO servers("));
        assert!(pair[1].starts_with("INSERT INTO dc("));
    }
    assert!(queries[7].contains("jsonb('{\"::ffff:10.0.0.7\":{}}')"));
    assert!(queries[8].contains("jsonb('{\"game.boop.com:2005\":{}}')"));
    assert!(queries[9].starts_with("DELETE FROM servers "));
    assert!(queries[10].contains("'{\"|9.9.9.9:2003\":null}'"));
    assert!(queries[11].starts_with("UPDATE servers SET icao = ? WHERE "));
    assert!(queries[12].starts_with("WITH sj AS "));
    assert!(queries[12].contains("cont_update = 7 FROM"));
    assert!(queries[13].starts_with("DELETE FROM dc "));
}

#[test]
fn parameter_of_an_address() {
    assert_eq!(
        IpAddr::V6([0x2001, 0xdb8, 0, 0, 0, 0, 0, 1]).to_sql(),
        text("2001:db8::1")
    );
    assert_eq!(IpAddr::V4([1, 2, 3, 4]).to_sql(), text("1.2.3.4"));
}
