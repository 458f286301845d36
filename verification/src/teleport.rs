//! What the helper knows of Teleport: the login status that `tsh` prints,
//! and the clusters, accounts and databases that it lists.

use crate::config::Config;
use crate::error::ThError;
use crate::json::{entry_pointer, entry_text, json_list_len, json_text, list_len};
use crate::text::{
    append_str, chars_of, contains, has_infix, lines, nth_piece, piece_at, same_str, split_lines,
    string_of, string_views, trim, trimmed, views_of,
};
use vstd::prelude::*;

verus! {

/// Whether the operator is logged in, and as whom.
pub struct TeleportStatus {
    pub logged_in: bool,
    pub user: Option<String>,
    pub cluster: Option<String>,
    pub expires: Option<String>,
}

/// A Kubernetes cluster and whether the operator may use it.
pub struct KubernetesCluster {
    pub name: String,
    pub accessible: bool,
}

/// An AWS application that Teleport offers.
pub struct AwsApp {
    pub name: String,
    pub description: Option<String>,
    pub uri: String,
}

/// A database and whether the operator may use it.
pub struct DatabaseInfo {
    pub name: String,
    pub accessible: bool,
}

/// The helper's view of Teleport, with the configuration it works from.
pub struct TeleportClient {
    pub config: Config,
}

/// Position of the first line that holds `field`, or the number of lines
/// where none does.
pub open spec fn first_line_with(ls: Seq<Seq<char>>, field: Seq<char>) -> int
    decreases ls.len(),
{
    if ls.len() == 0 {
        0
    } else if has_infix(ls[0], field) {
        0
    } else {
        1 + first_line_with(ls.drop_first(), field)
    }
}

/// The value of a field in the text of a status: of the first line that
/// holds the field's name, what stands between the first and the second
/// colon, trimmed. Nothing where no line holds the name, or that line has
/// no colon.
pub open spec fn field_of(text: Seq<char>, field: Seq<char>) -> Option<Seq<char>> {
    let ls = lines(text);
    let k = first_line_with(ls, field);
    if 0 <= k < ls.len() {
        match nth_piece(ls[k], ':', 1) {
            Some(piece) => Some(trim(piece)),
            None => None,
        }
    } else {
        None
    }
}

/// The first of two values that is there.
pub open spec fn first_of(a: Option<Seq<char>>, b: Option<Seq<char>>) -> Option<Seq<char>> {
    if a is Some {
        a
    } else {
        b
    }
}

/// Whether the text of a status says that the operator is logged in.
pub open spec fn says_logged_in(text: Seq<char>) -> bool {
    has_infix(text, "Logged in as:"@) || has_infix(text, "logged in as"@) || has_infix(
        text,
        "User:"@,
    )
}

/// The view of an optional string.
pub open spec fn opt_view(s: Option<String>) -> Option<Seq<char>> {
    match s {
        Some(v) => Some(v@),
        None => None,
    }
}

/// `first_line_with` stays within the lines, finds a line with the field
/// where it stops short of the end, and passes over none.
pub proof fn lemma_first_line_with(ls: Seq<Seq<char>>, field: Seq<char>)
    ensures
        0 <= first_line_with(ls, field) <= ls.len(),
        first_line_with(ls, field) < ls.len() ==> has_infix(
            ls[first_line_with(ls, field)],
            field,
        ),
        forall|j: int| 0 <= j < first_line_with(ls, field) ==> !has_infix(ls[j], field),
    decreases ls.len(),
{
    if ls.len() > 0 && !has_infix(ls[0], field) {
        let rest = ls.drop_first();
        lemma_first_line_with(rest, field);
        assert forall|j: int| 0 <= j < first_line_with(ls, field) implies !has_infix(
            ls[j],
            field,
        ) by {
            if j > 0 {
                assert(ls[j] == rest[j - 1]);
            }
        }
    }
}

/// The value of `field` in `text`.
pub fn field_in(text: &str, field: &str) -> (value: Option<String>)
    ensures
        opt_view(value) == field_of(text@, field@),
{
    let chars = chars_of(text);
    let name = chars_of(field);
    let ls = split_lines(&chars);
    let ghost all = views_of(ls@);
    let mut i: usize = 0;
    while i < ls.len()
        invariant
            i <= ls.len(),
            all == views_of(ls@),
            all == lines(text@),
            name@ == field@,
            forall|j: int| 0 <= j < i ==> !has_infix(all[j], field@),
        decreases ls.len() - i,
    {
        if contains(&ls[i], &name) {
            proof {
                lemma_first_line_with(all, field@);
                assert(all[i as int] == ls@[i as int]@);
                let k = first_line_with(all, field@);
                if k < i {
                    assert(!has_infix(all[k], field@));
                }
                if k > i {
                    assert(!has_infix(all[i as int], field@));
                }
            }
            return match piece_at(&ls[i], ':', 1) {
                Some(piece) => Some(string_of(&trimmed(&piece))),
                None => None,
            };
        }
        proof {
            assert(all[i as int] == ls@[i as int]@);
        }
        i += 1;
    }
    proof {
        lemma_first_line_with(all, field@);
        let k = first_line_with(all, field@);
        if k < all.len() {
            assert(!has_infix(all[k], field@));
        }
    }
    None
}

impl TeleportClient {
    /// The client for a configuration.
    pub fn new(config: Config) -> (client: TeleportClient)
        ensures
            client.config == config,
    {
        TeleportClient { config }
    }

    /// The value of a field in the text of a status.
    pub fn extract_field(&self, text: &str, field: &str) -> (value: Option<String>)
        ensures
            opt_view(value) == field_of(text@, field@),
    {
        field_in(text, field)
    }

    /// The status that the output of `tsh status` stands for; `None` is a
    /// run that failed, which counts as not logged in.
    pub fn get_status(&self, output: Option<&str>) -> (status: TeleportStatus)
        ensures
            status.logged_in == (output is Some && says_logged_in(output->0@)),
            status.logged_in ==> opt_view(status.user) == first_of(
                field_of(output->0@, "Logged in as:"@),
                field_of(output->0@, "User:"@),
            ) && opt_view(status.cluster) == first_of(
                field_of(output->0@, "Cluster:"@),
                field_of(output->0@, "Proxy:"@),
            ) && opt_view(status.expires) == first_of(
                field_of(output->0@, "Valid until:"@),
                field_of(output->0@, "Expires:"@),
            ),
            !status.logged_in ==> status.user is None && status.cluster is None && status.expires
                is None,
    {
        let logged_out = TeleportStatus {
            logged_in: false,
            user: None,
            cluster: None,
            expires: None,
        };
        match output {
            None => logged_out,
            Some(text) => {
                let chars = chars_of(text);
                if contains(&chars, &chars_of("Logged in as:")) || contains(
                    &chars,
                    &chars_of("logged in as"),
                ) || contains(&chars, &chars_of("User:")) {
                    let user = match field_in(text, "Logged in as:") {
                        Some(v) => Some(v),
                        None => field_in(text, "User:"),
                    };
                    let cluster = match field_in(text, "Cluster:") {
                        Some(v) => Some(v),
                        None => field_in(text, "Proxy:"),
                    };
                    let expires = match field_in(text, "Valid until:") {
                        Some(v) => Some(v),
                        None => field_in(text, "Expires:"),
                    };
                    TeleportStatus { logged_in: true, user, cluster, expires }
                } else {
                    logged_out
                }
            },
        }
    }

    /// Whether the output of `tsh status` says that the operator is logged
    /// in.
    pub fn is_logged_in(&self, output: Option<&str>) -> (b: bool)
        ensures
            b == (output is Some && says_logged_in(output->0@)),
    {
        self.get_status(output).logged_in
    }
}

/// The texts at `path` below the first `n` entries of the document's list,
/// in order; entries without a text there are passed over.
pub open spec fn entry_texts(text: Seq<char>, path: Seq<char>, n: nat) -> Seq<Seq<char>>
    decreases n,
{
    if n == 0 {
        Seq::empty()
    } else {
        let before = entry_texts(text, path, (n - 1) as nat);
        match json_text(text, entry_pointer(Seq::empty(), (n - 1) as nat, path)) {
            Some(found) => before.push(found),
            None => before,
        }
    }
}

/// The length of the document's list, 0 where the document is no list, or
/// nothing where the text is no JSON.
pub open spec fn entry_count(text: Seq<char>) -> Option<nat> {
    match json_list_len(text, Seq::empty()) {
        None => None,
        Some(None) => Some(0),
        Some(Some(n)) => Some(n),
    }
}

/// Whether a cluster counts as production.
pub open spec fn is_prod(name: Seq<char>) -> bool {
    has_infix(name, "prod"@)
}

/// The first production cluster among the names.
pub open spec fn first_prod(names: Seq<Seq<char>>) -> Option<Seq<char>>
    decreases names.len(),
{
    if names.len() == 0 {
        None
    } else if is_prod(names[0]) {
        Some(names[0])
    } else {
        first_prod(names.drop_first())
    }
}

/// What an application in the list of applications is, as far as the
/// helper reads it: its name, its description, and its address, empty
/// where it has none. An entry without a name is no application.
pub open spec fn app_at(text: Seq<char>, i: nat) -> Option<(Seq<char>, Option<Seq<char>>, Seq<char>)> {
    match json_text(text, entry_pointer(Seq::empty(), i, "/metadata/name"@)) {
        None => None,
        Some(name) => Some(
            (
                name,
                json_text(text, entry_pointer(Seq::empty(), i, "/metadata/description"@)),
                match json_text(text, entry_pointer(Seq::empty(), i, "/spec/uri"@)) {
                    Some(uri) => uri,
                    None => Seq::empty(),
                },
            ),
        ),
    }
}

/// The applications among the first `n` entries of the document's list.
pub open spec fn apps_upto(text: Seq<char>, n: nat) -> Seq<
    (Seq<char>, Option<Seq<char>>, Seq<char>),
>
    decreases n,
{
    if n == 0 {
        Seq::empty()
    } else {
        let before = apps_upto(text, (n - 1) as nat);
        match app_at(text, (n - 1) as nat) {
            Some(app) => before.push(app),
            None => before,
        }
    }
}

/// The views of a list of applications.
pub open spec fn app_views(apps: Seq<AwsApp>) -> Seq<(Seq<char>, Option<Seq<char>>, Seq<char>)> {
    Seq::new(apps.len(), |i: int| (apps[i].name@, opt_view(apps[i].description), apps[i].uri@))
}

/// Whether entry `i` of the list of databases is labelled as an RDS
/// database.
pub open spec fn is_rds_at(text: Seq<char>, i: nat) -> bool {
    json_text(text, entry_pointer(Seq::empty(), i, "/metadata/labels/db_type"@)) == Some("rds"@)
}

/// The names of the databases among the first `n` entries of the list that
/// are RDS databases, where `rds` says so, and that are none, where it
/// does not.
pub open spec fn database_names_upto(text: Seq<char>, n: nat, rds: bool) -> Seq<Seq<char>>
    decreases n,
{
    if n == 0 {
        Seq::empty()
    } else {
        let before = database_names_upto(text, (n - 1) as nat, rds);
        match json_text(text, entry_pointer(Seq::empty(), (n - 1) as nat, "/metadata/name"@)) {
            Some(name) => if is_rds_at(text, (n - 1) as nat) == rds {
                before.push(name)
            } else {
                before
            },
            None => before,
        }
    }
}

/// Whether one of the first `n` active requests in a status is one for
/// read access to Atlas.
pub open spec fn atlas_request_upto(text: Seq<char>, n: nat) -> bool
    decreases n,
{
    if n == 0 {
        false
    } else {
        atlas_request_upto(text, (n - 1) as nat) || match json_text(
            text,
            entry_pointer("/active_requests"@, (n - 1) as nat, "/id"@),
        ) {
            Some(id) => has_infix(id, "atlas-can-read"@),
            None => false,
        }
    }
}

/// Whether a status lists an active request for read access to Atlas.
pub open spec fn has_atlas_request(text: Seq<char>) -> bool {
    match json_list_len(text, "/active_requests"@) {
        Some(Some(n)) => atlas_request_upto(text, n),
        _ => false,
    }
}

/// The number of entries in the document's list.
pub fn count_entries(json: &str) -> (count: Result<usize, ThError>)
    ensures
        match count {
            Ok(n) => entry_count(json@) == Some(n as nat),
            Err(e) => entry_count(json@) is None && e is Json,
        },
{
    proof {
        reveal_strlit("");
        assert(""@ =~= Seq::<char>::empty());
    }
    match list_len(json, "") {
        Err(e) => Err(e),
        Ok(None) => Ok(0),
        Ok(Some(n)) => Ok(n),
    }
}

/// The names of the clusters in the list that `tsh kube ls` prints.
pub fn kube_cluster_names(json: &str) -> (names: Result<Vec<String>, ThError>)
    ensures
        match names {
            Ok(found) => entry_count(json@) is Some && string_views(found@) == entry_texts(
                json@,
                "/kube_cluster_name"@,
                entry_count(json@)->0,
            ),
            Err(e) => entry_count(json@) is None && e is Json,
        },
{
    let n = match count_entries(json) {
        Ok(n) => n,
        Err(e) => {
            return Err(e);
        },
    };
    let mut found: Vec<String> = Vec::new();
    let mut i: usize = 0;
    proof {
        reveal_strlit("");
        assert(""@ =~= Seq::<char>::empty());
        assert(string_views(found@) =~= entry_texts(json@, "/kube_cluster_name"@, 0));
    }
    while i < n
        invariant
            i <= n,
            ""@ == Seq::<char>::empty(),
            string_views(found@) == entry_texts(json@, "/kube_cluster_name"@, i as nat),
        decreases n - i,
    {
        match entry_text(json, "", i, "/kube_cluster_name") {
            Some(name) => {
                proof {
                    assert(string_views(found@.push(name)) =~= string_views(found@).push(name@));
                }
                found.push(name);
            },
            None => {},
        }
        i += 1;
    }
    Ok(found)
}

/// The first production cluster among `names`: the one to try access with.
pub fn prod_test_cluster(names: &Vec<String>) -> (cluster: Option<String>)
    ensures
        opt_view(cluster) == first_prod(string_views(names@)),
{
    let ghost all = string_views(names@);
    let prod = chars_of("prod");
    let mut i: usize = 0;
    assert(all.skip(0) =~= all);
    while i < names.len()
        invariant
            i <= names.len(),
            all == string_views(names@),
            prod@ == "prod"@,
            first_prod(all) == first_prod(all.skip(i as int)),
        decreases names.len() - i,
    {
        let ghost rest = all.skip(i as int);
        proof {
            assert(rest[0] == names@[i as int]@);
            assert(rest.drop_first() =~= all.skip(i + 1));
        }
        if contains(&chars_of(names[i].as_str()), &prod) {
            return Some(names[i].clone());
        }
        i += 1;
    }
    assert(all.skip(names.len() as int).len() == 0);
    None
}



/// The names of the databases in the list that `tsh db ls` prints: those
/// labelled as RDS databases where `rds` says so, the others where not.
pub fn database_names_in(json: &str, rds: bool) -> (names: Result<Vec<String>, ThError>)
    ensures
        match names {
            Ok(found) => entry_count(json@) is Some && string_views(found@)
                == database_names_upto(json@, entry_count(json@)->0, rds),
            Err(e) => entry_count(json@) is None && e is Json,
        },
{
    let n = match count_entries(json) {
        Ok(n) => n,
        Err(e) => {
            return Err(e);
        },
    };
    let mut found: Vec<String> = Vec::new();
    let mut i: usize = 0;
    proof {
        reveal_strlit("");
        assert(""@ =~= Seq::<char>::empty());
        assert(string_views(found@) =~= database_names_upto(json@, 0, rds));
    }
    while i < n
        invariant
            i <= n,
            ""@ == Seq::<char>::empty(),
            string_views(found@) == database_names_upto(json@, i as nat, rds),
        decreases n - i,
    {
        match entry_text(json, "", i, "/metadata/name") {
            Some(name) => {
                let is_rds = match entry_text(json, "", i, "/metadata/labels/db_type") {
                    Some(kind) => same_str(kind.as_str(), "rds"),
                    None => false,
                };
                if is_rds == rds {
                    proof {
                        assert(string_views(found@.push(name)) =~= string_views(found@).push(
                            name@,
                        ));
                    }
                    found.push(name);
                }
            },
            None => {},
        }
        i += 1;
    }
    Ok(found)
}


/// Whether the status that `tsh status` prints as JSON lists an active
/// request for read access to Atlas.
pub fn has_atlas_access(status_json: &str) -> (access: Result<bool, ThError>)
    ensures
        match access {
            Ok(b) => json_list_len(status_json@, "/active_requests"@) is Some && b
                == has_atlas_request(status_json@),
            Err(e) => json_list_len(status_json@, "/active_requests"@) is None && e is Json,
        },
{
    let n = match list_len(status_json, "/active_requests") {
        Err(e) => {
            return Err(e);
        },
        Ok(None) => {
            return Ok(false);
        },
        Ok(Some(n)) => n,
    };
    let wanted = chars_of("atlas-can-read");
    let mut found = false;
    let mut i: usize = 0;
    while i < n
        invariant
            i <= n,
            wanted@ == "atlas-can-read"@,
            found == atlas_request_upto(status_json@, i as nat),
        decreases n - i,
    {
        match entry_text(status_json, "/active_requests", i, "/id") {
            Some(id) => {
                if contains(&chars_of(id.as_str()), &wanted) {
                    found = true;
                }
            },
            None => {},
        }
        i += 1;
    }
    Ok(found)
}


/// How often the helper asks for the status while a login is under way.
pub const MAX_LOGIN_POLLS: u32 = 30;

/// How long the helper sleeps between two looks at the status, in
/// milliseconds.
pub const LOGIN_POLL_MS: u64 = 500;

/// What the wait for a login does after a look at the status.
#[derive(Debug, Clone, Copy, PartialEq, Eq, Structural)]
pub enum LoginStep {
    /// The status names the operator.
    LoggedIn,
    /// Sleep for the interval, then look again.
    Wait,
    /// Sleep for the interval, then report a timeout.
    TimedOut,
}

/// Whether the output of `tsh status` names the operator who is logged in.
pub open spec fn names_operator(output: Option<Seq<char>>) -> bool {
    output is Some && has_infix(output->0, "Logged in as:"@)
}

/// The arguments of a login with the configured authentication and
/// proxy.
pub open spec fn login_args_of(auth_type: Seq<char>, proxy: Seq<char>) -> Seq<Seq<char>> {
    seq!["login"@, "--auth"@, auth_type, "--proxy"@, proxy]
}

/// The arguments of a login to an application under a role.
pub open spec fn aws_login_args_of(app: Seq<char>, role: Seq<char>) -> Seq<Seq<char>> {
    seq!["apps"@, "login"@, app, "--aws-role"@, role]
}

/// Whether the operator may write to production clusters: the login to one
/// of them could be run, and kubectl said that pods may be created.
pub open spec fn prod_access_of(login_ran: bool, can_create: Option<bool>) -> bool {
    login_ran && can_create == Some(true)
}

/// The step after a look at the status that came after `polls_before`
/// fruitless looks.
pub fn login_step(polls_before: u32, output: Option<&str>) -> (step: LoginStep)
    ensures
        step == if names_operator(opt_str_view(output)) {
            LoginStep::LoggedIn
        } else if polls_before + 1 >= MAX_LOGIN_POLLS {
            LoginStep::TimedOut
        } else {
            LoginStep::Wait
        },
{
    let named = match output {
        Some(text) => contains(&chars_of(text), &chars_of("Logged in as:")),
        None => false,
    };
    if named {
        LoginStep::LoggedIn
    } else if polls_before >= MAX_LOGIN_POLLS - 1 {
        LoginStep::TimedOut
    } else {
        LoginStep::Wait
    }
}

/// The view of an optional string slice.
pub open spec fn opt_str_view(s: Option<&str>) -> Option<Seq<char>> {
    match s {
        Some(v) => Some(v@),
        None => None,
    }
}


/// The arguments of a login to the application `app` under `role`.
pub fn aws_login_args(app: &str, role: &str) -> (args: Vec<String>)
    ensures
        string_views(args@) == aws_login_args_of(app@, role@),
{
    let mut args: Vec<String> = Vec::new();
    args.push(String::from_str("apps"));
    args.push(String::from_str("login"));
    args.push(String::from_str(app));
    args.push(String::from_str("--aws-role"));
    args.push(String::from_str(role));
    assert(string_views(args@) =~= aws_login_args_of(app@, role@));
    args
}

impl TeleportClient {
    /// The arguments of a login to Teleport as configured.
    pub fn login_args(&self) -> (args: Vec<String>)
        ensures
            string_views(args@) == login_args_of(
                self.config.teleport.auth_type@,
                self.config.teleport.proxy@,
            ),
    {
        let mut args: Vec<String> = Vec::new();
        args.push(String::from_str("login"));
        args.push(String::from_str("--auth"));
        args.push(self.config.teleport.auth_type.clone());
        args.push(String::from_str("--proxy"));
        args.push(self.config.teleport.proxy.clone());
        assert(string_views(args@) =~= login_args_of(
            self.config.teleport.auth_type@,
            self.config.teleport.proxy@,
        ));
        args
    }

    /// Whether Teleport's client is there: `runs` says whether asking it
    /// for its version went well.
    pub fn validate_tools(&self, runs: bool) -> (checked: Result<(), ThError>)
        ensures
            match checked {
                Ok(_) => runs,
                Err(e) => !runs && e is NotFound && e->NotFound_0@ == "tsh command not found at: "@
                    + self.config.paths.tsh@,
            },
    {
        if runs {
            return Ok(());
        }
        let mut detail = chars_of("tsh command not found at: ");
        append_str(&mut detail, self.config.paths.tsh.as_str());
        Err(ThError::NotFound(string_of(&detail)))
    }

    /// What the end of the login program means: an authentication failure
    /// where it did not end well.
    pub fn login(&self, ended_well: bool) -> (result: Result<(), ThError>)
        ensures
            match result {
                Ok(_) => ended_well,
                Err(e) => !ended_well && e is AuthFailed && e->AuthFailed_0@
                    == "Teleport login failed"@,
            },
    {
        if ended_well {
            Ok(())
        } else {
            Err(ThError::AuthFailed(String::from_str("Teleport login failed")))
        }
    }
}

impl TeleportClient {
    /// The clusters by name, each with whether the operator may use it: a
    /// production cluster as the try with one of them went, any other always.
    pub fn list_kube_clusters(&self, names: &Vec<String>, prod_access: bool) -> (clusters: Vec<
        KubernetesCluster,
    >)
        ensures
            clusters@.len() == names@.len(),
            forall|i: int|
                0 <= i < clusters@.len() ==> (#[trigger] clusters@[i]).name@ == names@[i]@
                    && clusters@[i].accessible == (if is_prod(names@[i]@) {
                    prod_access
                } else {
                    true
                }),
    {
        let prod = chars_of("prod");
        let mut clusters: Vec<KubernetesCluster> = Vec::new();
        let mut i: usize = 0;
        while i < names.len()
            invariant
                i <= names.len(),
                prod@ == "prod"@,
                clusters@.len() == i,
                forall|j: int|
                    0 <= j < i ==> (#[trigger] clusters@[j]).name@ == names@[j]@
                        && clusters@[j].accessible == (if is_prod(names@[j]@) {
                        prod_access
                    } else {
                        true
                    }),
            decreases names.len() - i,
        {
            let accessible = if contains(&chars_of(names[i].as_str()), &prod) {
                prod_access
            } else {
                true
            };
            clusters.push(KubernetesCluster { name: names[i].clone(), accessible });
            i += 1;
        }
        clusters
    }

    /// The applications in the list that `tsh apps ls` prints.
    pub fn list_aws_apps(&self, json: &str) -> (apps: Result<Vec<AwsApp>, ThError>)
        ensures
            match apps {
                Ok(found) => entry_count(json@) is Some && app_views(found@) == apps_upto(
                    json@,
                    entry_count(json@)->0,
                ),
                Err(e) => entry_count(json@) is None && e is Json,
            },
    {
        let n = match count_entries(json) {
            Ok(n) => n,
            Err(e) => {
                return Err(e);
            },
        };
        let mut found: Vec<AwsApp> = Vec::new();
        let mut i: usize = 0;
        proof {
            reveal_strlit("");
            assert(""@ =~= Seq::<char>::empty());
            assert(app_views(found@) =~= apps_upto(json@, 0));
        }
        while i < n
            invariant
                i <= n,
                ""@ == Seq::<char>::empty(),
                app_views(found@) == apps_upto(json@, i as nat),
            decreases n - i,
        {
            match entry_text(json, "", i, "/metadata/name") {
                Some(name) => {
                    let description = entry_text(json, "", i, "/metadata/description");
                    let uri = match entry_text(json, "", i, "/spec/uri") {
                        Some(uri) => uri,
                        None => String::new(),
                    };
                    let app = AwsApp { name, description, uri };
                    proof {
                        assert(app_views(found@.push(app)) =~= app_views(found@).push(
                            (app.name@, opt_view(app.description), app.uri@),
                        ));
                    }
                    found.push(app);
                },
                None => {},
            }
            i += 1;
        }
        Ok(found)
    }

    /// The RDS databases in the list that `tsh db ls` prints, each as one that
    /// the operator may use.
    pub fn list_rds_databases(&self, json: &str) -> (databases: Result<Vec<DatabaseInfo>, ThError>)
        ensures
            match databases {
                Ok(found) => entry_count(json@) is Some && found@.len() == database_names_upto(
                    json@,
                    entry_count(json@)->0,
                    true,
                ).len() && forall|i: int|
                    0 <= i < found@.len() ==> (#[trigger] found@[i]).name@ == database_names_upto(
                        json@,
                        entry_count(json@)->0,
                        true,
                    )[i] && found@[i].accessible,
                Err(e) => entry_count(json@) is None && e is Json,
            },
    {
        let names = match database_names_in(json, true) {
            Ok(names) => names,
            Err(e) => {
                return Err(e);
            },
        };
        let ghost wanted = string_views(names@);
        let mut found: Vec<DatabaseInfo> = Vec::new();
        let mut i: usize = 0;
        while i < names.len()
            invariant
                i <= names.len(),
                wanted == string_views(names@),
                found@.len() == i,
                forall|j: int|
                    0 <= j < i ==> (#[trigger] found@[j]).name@ == wanted[j] && found@[j].accessible,
            decreases names.len() - i,
        {
            assert(wanted[i as int] == names@[i as int]@);
            found.push(DatabaseInfo { name: names[i].clone(), accessible: true });
            i += 1;
        }
        Ok(found)
    }

    /// The MongoDB databases in the list that `tsh db ls` prints, and whether
    /// the status lists an active request for read access to Atlas.
    pub fn list_mongodb_databases(&self, status_json: &str, databases_json: &str) -> (listed: Result<
        (Vec<String>, bool),
        ThError,
    >)
        ensures
            match listed {
                Ok((names, access)) => json_list_len(status_json@, "/active_requests"@) is Some
                    && entry_count(databases_json@) is Some && access == has_atlas_request(
                    status_json@,
                ) && string_views(names@) == database_names_upto(
                    databases_json@,
                    entry_count(databases_json@)->0,
                    false,
                ),
                Err(e) => (json_list_len(status_json@, "/active_requests"@) is None || entry_count(
                    databases_json@,
                ) is None) && e is Json,
            },
    {
        let access = match has_atlas_access(status_json) {
            Ok(b) => b,
            Err(e) => {
                return Err(e);
            },
        };
        match database_names_in(databases_json, false) {
            Ok(names) => Ok((names, access)),
            Err(e) => Err(e),
        }
    }

    /// Whether the operator may write to production clusters.
    pub fn check_prod_cluster_access(&self, login_ran: bool, can_create: Option<bool>) -> (access: bool)
        ensures
            access == prod_access_of(login_ran, can_create),
    {
        if !login_ran {
            return false;
        }
        match can_create {
            Some(b) => b,
            None => false,
        }
    }
}

} // verus!
