//! The AWS roles that Teleport offers for an application, as `tsh` prints
//! them, and the role that each environment goes with.

use crate::config::Config;
use crate::teleport::opt_view;
use crate::text::{
    append_str, chars_of, contains, find_text, first_occurrence, has_infix, join, join_with,
    line_feed, lines, nth_word, same_str, slice_of, split_at_char, split_lines, split_on,
    string_of, string_views, views_of, word_at, word_len,
};
use vstd::prelude::*;

verus! {

/// What opens the list of roles in the output of a login without a role.
pub open spec fn roles_header() -> Seq<char> {
    "Available AWS roles:"@
}

/// What ends the list of roles.
pub open spec fn roles_end() -> Seq<char> {
    "ERROR: --aws-role flag is required"@
}

/// The lines of the section of roles: from the header on, the header
/// included, up to the line that ends the list; lines that report an error
/// are left out. `inside` says whether the header has been passed.
pub open spec fn section_lines(ls: Seq<Seq<char>>, inside: bool) -> Seq<Seq<char>>
    decreases ls.len(),
{
    if ls.len() == 0 {
        Seq::empty()
    } else if has_infix(ls[0], roles_header()) {
        seq![ls[0]] + section_lines(ls.drop_first(), true)
    } else if has_infix(ls[0], roles_end()) {
        Seq::empty()
    } else if inside && !has_infix(ls[0], "ERROR:"@) {
        seq![ls[0]] + section_lines(ls.drop_first(), inside)
    } else {
        section_lines(ls.drop_first(), inside)
    }
}

/// The section of roles in the output of `tsh`, its lines joined by line
/// feeds.
pub open spec fn roles_section_of(output: Seq<char>) -> Seq<char> {
    join(section_lines(lines(output), false), line_feed())
}

/// The names of the roles in the lines of a section, the two heading lines
/// already taken off: of each line that is not blank and no rule of
/// dashes, the first word.
pub open spec fn role_names(ls: Seq<Seq<char>>) -> Seq<Seq<char>>
    decreases ls.len(),
{
    if ls.len() == 0 {
        Seq::empty()
    } else {
        let before = role_names(ls.drop_last());
        if nth_word(ls.last(), 0) is Some && !has_infix(ls.last(), "---------"@) {
            before.push(nth_word(ls.last(), 0)->0)
        } else {
            before
        }
    }
}

/// The names of the roles in a section: its first two lines are headings.
pub open spec fn roles_of(section: Seq<char>) -> Seq<Seq<char>> {
    if lines(section).len() <= 2 {
        Seq::empty()
    } else {
        role_names(lines(section).skip(2))
    }
}

/// What opens the name of a role in AWS.
pub open spec fn arn_prefix() -> Seq<char> {
    "arn:aws:iam::"@
}

/// The name of the role in a line that holds an ARN: of the ARN, which
/// runs from its prefix to the next white space, what follows the last
/// `/`.
pub open spec fn role_in_line(line: Seq<char>) -> Seq<char> {
    let from = line.skip(first_occurrence(line, arn_prefix()));
    let arn = from.take(word_len(from));
    split_on(arn, '/').last()
}

/// The role that the output names by its ARN: that of the first line with
/// an ARN.
pub open spec fn default_role_of(ls: Seq<Seq<char>>) -> Option<Seq<char>>
    decreases ls.len(),
{
    if ls.len() == 0 {
        None
    } else if has_infix(ls[0], arn_prefix()) {
        Some(role_in_line(ls[0]))
    } else {
        default_role_of(ls.drop_first())
    }
}

/// The role that goes with an environment.
pub open spec fn role_of_env(env: Seq<char>) -> Seq<char> {
    if env == "corepg"@ {
        "coreplayground"@
    } else {
        env
    }
}

/// The role to ask for when the operator wants more than the default role
/// of an application.
pub open spec fn elevated_role_of(app: Seq<char>) -> Seq<char> {
    if app == "yl-production"@ {
        "sudo_prod_role"@
    } else {
        "sudo_usprod_role"@
    }
}

/// The id of an access request in the output of its creation: the third
/// word of the first line that holds `Request ID:`.
pub open spec fn request_id_of(ls: Seq<Seq<char>>) -> Option<Seq<char>>
    decreases ls.len(),
{
    if ls.len() == 0 {
        None
    } else if has_infix(ls[0], "Request ID:"@) {
        nth_word(ls[0], 2)
    } else {
        request_id_of(ls.drop_first())
    }
}

/// The section of roles in the output of `tsh`.
pub fn extract_roles_section(output: &str) -> (section: String)
    ensures
        section@ == roles_section_of(output@),
{
    let ls = split_lines(&chars_of(output));
    let header = chars_of("Available AWS roles:");
    let end = chars_of("ERROR: --aws-role flag is required");
    let error = chars_of("ERROR:");
    let ghost all = views_of(ls@);
    let mut kept: Vec<Vec<char>> = Vec::new();
    let mut inside = false;
    let mut stopped = false;
    let mut i: usize = 0;
    proof {
        assert(all.skip(0) =~= all);
        assert(views_of(kept@) + section_lines(all, false) =~= section_lines(all, false));
    }
    while i < ls.len() && !stopped
        invariant
            i <= ls.len(),
            all == views_of(ls@),
            header@ == roles_header(),
            end@ == roles_end(),
            error@ == "ERROR:"@,
            stopped ==> section_lines(all, false) == views_of(kept@),
            !stopped ==> section_lines(all, false) == views_of(kept@) + section_lines(
                all.skip(i as int),
                inside,
            ),
        decreases ls.len() - i,
    {
        let line = &ls[i];
        let ghost rest = all.skip(i as int);
        proof {
            assert(rest[0] == line@);
            assert(rest.drop_first() =~= all.skip(i + 1));
        }
        if contains(line, &header) {
            proof {
                assert(views_of(kept@.push(*line)) =~= views_of(kept@) + seq![line@]);
                assert(views_of(kept@) + (seq![line@] + section_lines(all.skip(i + 1), true))
                    =~= views_of(kept@.push(*line)) + section_lines(all.skip(i + 1), true));
            }
            inside = true;
            kept.push(line.clone());
        } else if contains(line, &end) {
            proof {
                assert(views_of(kept@) + Seq::<Seq<char>>::empty() =~= views_of(kept@));
            }
            stopped = true;
        } else if inside && !contains(line, &error) {
            proof {
                assert(views_of(kept@.push(*line)) =~= views_of(kept@) + seq![line@]);
                assert(views_of(kept@) + (seq![line@] + section_lines(all.skip(i + 1), inside))
                    =~= views_of(kept@.push(*line)) + section_lines(all.skip(i + 1), inside));
            }
            kept.push(line.clone());
        }
        i += 1;
    }
    proof {
        if !stopped {
            assert(all.skip(i as int).len() == 0);
            assert(views_of(kept@) + Seq::<Seq<char>>::empty() =~= views_of(kept@));
        }
    }
    let feed = chars_of("\n");
    proof {
        reveal_strlit("\n");
        assert(feed@ =~= line_feed());
    }
    string_of(&join_with(&kept, &feed))
}

/// The names of the roles in a section of roles.
pub fn list_roles(section: &str) -> (roles: Vec<String>)
    ensures
        string_views(roles@) == roles_of(section@),
{
    let ls = split_lines(&chars_of(section));
    let dashes = chars_of("---------");
    let mut roles: Vec<String> = Vec::new();
    let ghost all = views_of(ls@);
    if ls.len() <= 2 {
        proof {
            assert(string_views(roles@) =~= Seq::<Seq<char>>::empty());
        }
        return roles;
    }
    let ghost body = all.skip(2);
    let mut i: usize = 2;
    proof {
        assert(body.take(0) =~= Seq::<Seq<char>>::empty());
        assert(string_views(roles@) =~= role_names(body.take(0)));
    }
    while i < ls.len()
        invariant
            2 <= i <= ls.len(),
            all == views_of(ls@),
            body == all.skip(2),
            dashes@ == "---------"@,
            string_views(roles@) == role_names(body.take(i - 2)),
        decreases ls.len() - i,
    {
        let line = &ls[i];
        proof {
            let next = body.take(i - 2 + 1);
            assert(next.drop_last() =~= body.take(i - 2));
            assert(next.last() == line@);
        }
        match word_at(line, 0) {
            Some(word) => {
                if !contains(line, &dashes) {
                    let name = string_of(&word);
                    proof {
                        assert(string_views(roles@.push(name)) =~= string_views(roles@).push(
                            name@,
                        ));
                    }
                    roles.push(name);
                }
            },
            None => {},
        }
        i += 1;
    }
    assert(body.take(ls.len() - 2) =~= body);
    roles
}

/// The name of the role in a line that holds an ARN.
fn role_of_arn_line(line: &Vec<char>) -> (role: Vec<char>)
    requires
        has_infix(line@, arn_prefix()),
    ensures
        role@ == role_in_line(line@),
{
    let prefix = chars_of("arn:aws:iam::");
    let start = find_text(line, &prefix);
    let mut end: usize = start;
    while end < line.len() && !crate::text::char_is_white_space(line[end])
        invariant
            start <= end <= line.len(),
            forall|j: int| start <= j < end ==> !crate::text::is_white_space(line@[j]),
        decreases line.len() - end,
    {
        end += 1;
    }
    let arn = slice_of(line, start, end);
    proof {
        let from = line@.skip(start as int);
        assert forall|j: int| 0 <= j < end - start implies !crate::text::is_white_space(
            from[j],
        ) by {
            assert(from[j] == line@[start + j]);
        }
        if end < line.len() {
            assert(from[end - start] == line@[end as int]);
        }
        crate::text::lemma_word_len_is(from, end - start);
        assert(from.take(end - start) =~= arn@);
    }
    let pieces = split_at_char(&arn, '/');
    proof {
        crate::text::lemma_split_on_nonempty(arn@, '/');
        assert(views_of(pieces@).last() == pieces@[pieces.len() - 1]@);
    }
    pieces[pieces.len() - 1].clone()
}

/// The role that the output of `tsh` names by its ARN.
pub fn extract_default_role(output: &str) -> (role: Option<String>)
    ensures
        opt_view(role) == default_role_of(lines(output@)),
{
    let ls = split_lines(&chars_of(output));
    let prefix = chars_of("arn:aws:iam::");
    let ghost all = views_of(ls@);
    let mut i: usize = 0;
    assert(all.skip(0) =~= all);
    while i < ls.len()
        invariant
            i <= ls.len(),
            all == views_of(ls@),
            prefix@ == arn_prefix(),
            all == lines(output@),
            default_role_of(all) == default_role_of(all.skip(i as int)),
        decreases ls.len() - i,
    {
        let ghost rest = all.skip(i as int);
        proof {
            assert(rest[0] == ls@[i as int]@);
            assert(rest.drop_first() =~= all.skip(i + 1));
        }
        if contains(&ls[i], &prefix) {
            return Some(string_of(&role_of_arn_line(&ls[i])));
        }
        i += 1;
    }
    assert(all.skip(ls.len() as int).len() == 0);
    None
}

/// The role that goes with the environment `env`.
pub fn select_regular_role(env: &str) -> (role: String)
    ensures
        role@ == role_of_env(env@),
{
    if same_str(env, "corepg") {
        String::from_str("coreplayground")
    } else {
        String::from_str(env)
    }
}

/// The sudo role that goes with the environment `env`.
pub fn select_sudo_role(env: &str) -> (role: String)
    ensures
        role@ == "sudo_"@ + role_of_env(env@),
{
    let mut out = chars_of("sudo_");
    let role = select_regular_role(env);
    append_str(&mut out, role.as_str());
    string_of(&out)
}

/// The role to ask for to get more than the default role of `app`.
pub fn elevated_role(app: &str) -> (role: &'static str)
    ensures
        role@ == elevated_role_of(app@),
{
    if same_str(app, "yl-production") {
        "sudo_prod_role"
    } else {
        "sudo_usprod_role"
    }
}

/// The id of the access request that the output reports.
pub fn request_id(output: &str) -> (id: Option<String>)
    ensures
        opt_view(id) == request_id_of(lines(output@)),
{
    let ls = split_lines(&chars_of(output));
    let label = chars_of("Request ID:");
    let ghost all = views_of(ls@);
    let mut i: usize = 0;
    assert(all.skip(0) =~= all);
    while i < ls.len()
        invariant
            i <= ls.len(),
            all == views_of(ls@),
            label@ == "Request ID:"@,
            all == lines(output@),
            request_id_of(all) == request_id_of(all.skip(i as int)),
        decreases ls.len() - i,
    {
        let ghost rest = all.skip(i as int);
        proof {
            assert(rest[0] == ls@[i as int]@);
            assert(rest.drop_first() =~= all.skip(i + 1));
        }
        if contains(&ls[i], &label) {
            return match word_at(&ls[i], 2) {
                Some(word) => Some(string_of(&word)),
                None => None,
            };
        }
        i += 1;
    }
    assert(all.skip(ls.len() as int).len() == 0);
    None
}

/// The arguments that ask Teleport for a role, with the reason given.
pub open spec fn request_args_of(role: Seq<char>, reason: Seq<char>) -> Seq<Seq<char>> {
    seq!["request"@, "create"@, "--roles"@, role, "--reason"@, reason]
}

/// The arguments that ask Teleport for `role`, with the reason given.
pub fn request_args(role: &str, reason: &str) -> (args: Vec<String>)
    ensures
        string_views(args@) == request_args_of(role@, reason@),
{
    let mut args: Vec<String> = Vec::new();
    args.push(String::from_str("request"));
    args.push(String::from_str("create"));
    args.push(String::from_str("--roles"));
    args.push(String::from_str(role));
    args.push(String::from_str("--reason"));
    args.push(String::from_str(reason));
    assert(string_views(args@) =~= request_args_of(role@, reason@));
    args
}

/// The environment that the configuration lists for `account`, or `unknown`
/// where it lists none.
pub fn find_env_for_account(config: &Config, account: &str) -> (env: String)
    ensures
        (exists|name: Seq<char>|
            config.aws@.contains_key(name) && #[trigger] config.aws@[name] == account@)
            ==> config.aws@.contains_key(env@) && config.aws@[env@] == account@,
        !(exists|name: Seq<char>|
            config.aws@.contains_key(name) && #[trigger] config.aws@[name] == account@) ==> env@
            == "unknown"@,
{
    let names = config.aws.keys();
    let mut i: usize = 0;
    while i < names.len()
        invariant
            i <= names.len(),
            forall|j: int| 0 <= j < names@.len() ==> config.aws@.contains_key(
                (#[trigger] names@[j])@,
            ),
            forall|name: Seq<char>| #[trigger]
                config.aws@.contains_key(name) ==> exists|j: int|
                    0 <= j < names@.len() && (#[trigger] names@[j])@ == name,
            forall|j: int| 0 <= j < i ==> config.aws@[(#[trigger] names@[j])@] != account@,
        decreases names.len() - i,
    {
        let name: &String = names[i];
        match config.aws.get(name.as_str()) {
            Some(value) => {
                if same_str(value.as_str(), account) {
                    return name.clone();
                }
            },
            None => {},
        }
        i += 1;
    }
    proof {
        assert forall|name: Seq<char>| config.aws@.contains_key(name) implies #[trigger]
            config.aws@[name] != account@ by {
            let j = choose|j: int| 0 <= j < names@.len() && (#[trigger] names@[j])@ == name;
            assert(config.aws@[names@[j]@] != account@);
        }
    }
    String::from_str("unknown")
}

} // verus!
