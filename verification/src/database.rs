//! Connecting to databases through Teleport: which user, which tunnel,
//! which address.

use crate::number::{decimal_chars, decimal_digits, parse_selection, Selection, selection_of};
use crate::text::{
    append_chars, append_str, chars_of, contains, has_infix, lines, same_str, split_lines,
    string_of, string_views, trim, trimmed, views_of,
};
use vstd::prelude::*;

verus! {

/// The user that reads from any RDS database.
pub open spec fn read_user() -> Seq<char> {
    "tf_teleport_rds_read_user"@
}

/// The user that may write to an RDS database.
pub open spec fn admin_user() -> Seq<char> {
    "tf_sudo_teleport_rds_user"@
}

/// The role whose holders may connect as the admin user.
pub open spec fn write_role() -> Seq<char> {
    "sudo_teleport_rds_write_role"@
}

/// The user that Teleport knows for each MongoDB cluster.
pub open spec fn mongo_user_of(db_name: Seq<char>) -> Seq<char> {
    if db_name == "mongodb-YLUSProd-Cluster-1"@ {
        "teleport-usprod"@
    } else if db_name == "mongodb-YLProd-Cluster-1"@ {
        "teleport-prod"@
    } else if db_name == "mongodb-YLSandbox-Cluster-1"@ {
        "teleport-sandbox"@
    } else {
        "teleport-default"@
    }
}

/// How a database is called in a request for access: by its name, or as
/// all Mongo databases where it has none.
pub open spec fn display_name_of(db_name: Seq<char>) -> Seq<char> {
    if db_name.len() == 0 {
        "Mongo databases"@
    } else {
        db_name
    }
}

/// The arguments that ask for a role on databases, for six hours.
pub open spec fn db_request_args_of(role: Seq<char>, reason: Seq<char>) -> Seq<Seq<char>> {
    seq!["request"@, "create"@, "--roles"@, role, "--max-duration"@, "6h"@, "--reason"@, reason]
}

/// The arguments that open a tunnel to list the databases of an RDS
/// instance.
pub open spec fn listing_tunnel_args_of(rds: Seq<char>, port: u16) -> Seq<Seq<char>> {
    seq![
        "proxy"@,
        "db"@,
        rds,
        "--db-user=tf_teleport_rds_read_user"@,
        "--db-name=postgres"@,
        "--port="@ + decimal_digits(port as nat),
        "--tunnel"@,
    ]
}

/// The address at which `psql` finds the tunnel.
pub open spec fn psql_url_of(port: u16) -> Seq<char> {
    "postgres://tf_teleport_rds_read_user@localhost:"@ + decimal_digits(port as nat)
        + "/postgres"@
}

/// The arguments that connect to a database of an RDS instance.
pub open spec fn connect_args_of(rds: Seq<char>, database: Seq<char>, user: Seq<char>) -> Seq<
    Seq<char>,
> {
    seq!["db"@, "connect"@, rds, "--db-user="@ + user, "--db-name="@ + database]
}

/// The arguments that open a tunnel for a graphical client.
pub open spec fn client_tunnel_args_of(
    rds: Seq<char>,
    database: Seq<char>,
    user: Seq<char>,
    port: u16,
) -> Seq<Seq<char>> {
    seq![
        "proxy"@,
        "db"@,
        rds,
        "--db-name="@ + database,
        "--port="@ + decimal_digits(port as nat),
        "--tunnel"@,
        "--db-user="@ + user,
    ]
}

/// The address at which a graphical client finds a MongoDB tunnel.
pub open spec fn compass_url_of(port: u16) -> Seq<char> {
    "mongodb://localhost:"@ + decimal_digits(port as nat) + "/?directConnection=true"@
}

/// The names in the output of a query for database names: of each line
/// that is not blank, the trimmed line.
pub open spec fn database_names(ls: Seq<Seq<char>>) -> Seq<Seq<char>>
    decreases ls.len(),
{
    if ls.len() == 0 {
        Seq::empty()
    } else {
        let before = database_names(ls.drop_last());
        if trim(ls.last()).len() > 0 {
            before.push(trim(ls.last()))
        } else {
            before
        }
    }
}

/// The database that a choice from the list comes to: the one chosen, and
/// `postgres` where nothing was typed or the number is none of the list's.
/// An input that is no number gives nothing.
pub open spec fn chosen_database(input: Seq<char>, names: Seq<Seq<char>>) -> Option<Seq<char>> {
    match selection_of(input, names.len()) {
        Selection::Empty => Some("postgres"@),
        Selection::OutOfRange => Some("postgres"@),
        Selection::NotANumber => None,
        Selection::Index(i) => Some(names[i as int]),
    }
}

/// The user that Teleport knows for the MongoDB cluster `db_name`.
pub fn mongo_user(db_name: &str) -> (user: &'static str)
    ensures
        user@ == mongo_user_of(db_name@),
{
    if same_str(db_name, "mongodb-YLUSProd-Cluster-1") {
        "teleport-usprod"
    } else if same_str(db_name, "mongodb-YLProd-Cluster-1") {
        "teleport-prod"
    } else if same_str(db_name, "mongodb-YLSandbox-Cluster-1") {
        "teleport-sandbox"
    } else {
        "teleport-default"
    }
}

/// How the database `db_name` is called in a request for access.
pub fn display_name(db_name: &str) -> (name: String)
    ensures
        name@ == display_name_of(db_name@),
{
    if chars_of(db_name).len() == 0 {
        String::from_str("Mongo databases")
    } else {
        String::from_str(db_name)
    }
}

/// Whether the status that `tsh` prints lists the role that may write.
pub fn may_connect_as_admin(status: &str) -> (b: bool)
    ensures
        b == has_infix(status@, write_role()),
{
    contains(&chars_of(status), &chars_of("sudo_teleport_rds_write_role"))
}

/// The user to connect as: the admin user for one who may and wants to,
/// the read user else.
pub fn db_user(may_admin: bool, wants_admin: bool) -> (user: &'static str)
    ensures
        user@ == if may_admin && wants_admin {
            admin_user()
        } else {
            read_user()
        },
{
    if may_admin && wants_admin {
        "tf_sudo_teleport_rds_user"
    } else {
        "tf_teleport_rds_read_user"
    }
}

/// A word of a command line made of `head` and the decimal digits of `port`
/// and `tail`.
fn with_port(head: &str, port: u16, tail: &str) -> (word: String)
    ensures
        word@ == head@ + decimal_digits(port as nat) + tail@,
{
    let mut out = chars_of(head);
    let digits = decimal_chars(port as u64);
    append_chars(&mut out, &digits);
    append_str(&mut out, tail);
    string_of(&out)
}

/// A word of a command line made of `head` and `value`.
fn with_value(head: &str, value: &str) -> (word: String)
    ensures
        word@ == head@ + value@,
{
    let mut out = chars_of(head);
    append_str(&mut out, value);
    string_of(&out)
}

/// The arguments that ask for `role` on databases, with the reason given.
pub fn db_request_args(role: &str, reason: &str) -> (args: Vec<String>)
    ensures
        string_views(args@) == db_request_args_of(role@, reason@),
{
    let mut args: Vec<String> = Vec::new();
    args.push(String::from_str("request"));
    args.push(String::from_str("create"));
    args.push(String::from_str("--roles"));
    args.push(String::from_str(role));
    args.push(String::from_str("--max-duration"));
    args.push(String::from_str("6h"));
    args.push(String::from_str("--reason"));
    args.push(String::from_str(reason));
    assert(string_views(args@) =~= db_request_args_of(role@, reason@));
    args
}

/// The arguments that open a tunnel on `port` to list the databases of
/// `rds`.
pub fn listing_tunnel_args(rds: &str, port: u16) -> (args: Vec<String>)
    ensures
        string_views(args@) == listing_tunnel_args_of(rds@, port),
{
    let mut args: Vec<String> = Vec::new();
    args.push(String::from_str("proxy"));
    args.push(String::from_str("db"));
    args.push(String::from_str(rds));
    args.push(String::from_str("--db-user=tf_teleport_rds_read_user"));
    args.push(String::from_str("--db-name=postgres"));
    args.push(with_port("--port=", port, ""));
    args.push(String::from_str("--tunnel"));
    proof {
        reveal_strlit("");
        assert("--port="@ + decimal_digits(port as nat) + ""@ =~= "--port="@ + decimal_digits(
            port as nat,
        ));
        assert(string_views(args@) =~= listing_tunnel_args_of(rds@, port));
    }
    args
}

/// The address at which `psql` finds the tunnel on `port`.
pub fn psql_url(port: u16) -> (url: String)
    ensures
        url@ == psql_url_of(port),
{
    with_port("postgres://tf_teleport_rds_read_user@localhost:", port, "/postgres")
}

/// The arguments that connect to `database` of `rds` as `user`.
pub fn connect_args(rds: &str, database: &str, user: &str) -> (args: Vec<String>)
    ensures
        string_views(args@) == connect_args_of(rds@, database@, user@),
{
    let mut args: Vec<String> = Vec::new();
    args.push(String::from_str("db"));
    args.push(String::from_str("connect"));
    args.push(String::from_str(rds));
    args.push(with_value("--db-user=", user));
    args.push(with_value("--db-name=", database));
    assert(string_views(args@) =~= connect_args_of(rds@, database@, user@));
    args
}

/// The arguments that open a tunnel on `port` for a graphical client.
pub fn client_tunnel_args(rds: &str, database: &str, user: &str, port: u16) -> (args: Vec<String>)
    ensures
        string_views(args@) == client_tunnel_args_of(rds@, database@, user@, port),
{
    let mut args: Vec<String> = Vec::new();
    args.push(String::from_str("proxy"));
    args.push(String::from_str("db"));
    args.push(String::from_str(rds));
    args.push(with_value("--db-name=", database));
    args.push(with_port("--port=", port, ""));
    args.push(String::from_str("--tunnel"));
    args.push(with_value("--db-user=", user));
    proof {
        reveal_strlit("");
        assert("--port="@ + decimal_digits(port as nat) + ""@ =~= "--port="@ + decimal_digits(
            port as nat,
        ));
        assert(string_views(args@) =~= client_tunnel_args_of(rds@, database@, user@, port));
    }
    args
}

/// The address at which a graphical client finds the MongoDB tunnel on
/// `port`.
pub fn compass_url(port: u16) -> (url: String)
    ensures
        url@ == compass_url_of(port),
{
    with_port("mongodb://localhost:", port, "/?directConnection=true")
}

/// The database names in the output of the query for them.
pub fn parse_database_names(output: &str) -> (names: Vec<String>)
    ensures
        string_views(names@) == database_names(lines(output@)),
{
    let ls = split_lines(&chars_of(output));
    let ghost all = views_of(ls@);
    let mut names: Vec<String> = Vec::new();
    let mut i: usize = 0;
    proof {
        assert(all.take(0) =~= Seq::<Seq<char>>::empty());
        assert(string_views(names@) =~= database_names(all.take(0)));
    }
    while i < ls.len()
        invariant
            i <= ls.len(),
            all == views_of(ls@),
            string_views(names@) == database_names(all.take(i as int)),
        decreases ls.len() - i,
    {
        let t = trimmed(&ls[i]);
        proof {
            let next = all.take(i + 1);
            assert(next.drop_last() =~= all.take(i as int));
            assert(next.last() == ls@[i as int]@);
        }
        if t.len() > 0 {
            let name = string_of(&t);
            proof {
                assert(string_views(names@.push(name)) =~= string_views(names@).push(name@));
            }
            names.push(name);
        }
        i += 1;
    }
    assert(all.take(ls.len() as int) =~= all);
    names
}

/// The database that the operator's choice from `names` comes to.
pub fn choose_database(input: &str, names: &Vec<String>) -> (chosen: Option<String>)
    ensures
        crate::teleport::opt_view(chosen) == chosen_database(input@, string_views(names@)),
{
    match parse_selection(input, names.len()) {
        Selection::Empty => Some(String::from_str("postgres")),
        Selection::OutOfRange => Some(String::from_str("postgres")),
        Selection::NotANumber => None,
        Selection::Index(i) => Some(names[i].clone()),
    }
}

} // verus!
