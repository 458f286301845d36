//! The shell profile: which file it is, how a session's source line gets
//! into it, and how the helper's lines are taken out again.

use crate::error::ThError;
use crate::session::artifact_path_of;
use crate::text::{
    all_single_line, append_str, chars_of, contains, find_char, has_infix, has_prefix, index_of,
    is_single_line, join_each_ended, join_ended, lemma_filter_all, lemma_filter_first,
    lemma_filter_next, lemma_filter_none, lemma_filter_push, lemma_filter_single,
    lemma_filter_start, lemma_filter_twice, lemma_index_of, lemma_join_ended_push,
    lemma_lines_concat, lemma_lines_of_ended, lemma_lines_single, lemma_prefix_before_cr,
    line_feed, lines, none_ends_with_cr, same_str, same_text, slice_of, split_lines, starts_with,
    string_of, string_views, strip_cr, strip_cr_each, views_of,
};
use vstd::prelude::*;

verus! {

/// The token by which the source line of a session is known. Every
/// session's artifact lies at `/tmp/tsh_proxy_<target>.log`.
pub open spec fn source_prefix() -> Seq<char> {
    "source /tmp/tsh_proxy_"@
}

/// The line that makes a shell read the file at `path`.
pub open spec fn source_line(path: Seq<char>) -> Seq<char> {
    "source "@ + path
}

/// Whether `line` is the source line of a session: it begins with the
/// token. A sync, a logout and a cleanup all go by this one test.
pub open spec fn is_source_line(line: Seq<char>) -> bool {
    has_prefix(line, source_prefix())
}

/// The predicate that keeps the lines that do not begin with `prefix`.
pub open spec fn keeps_without(prefix: Seq<char>) -> spec_fn(Seq<char>) -> bool {
    |line: Seq<char>| !has_prefix(line, prefix)
}

/// The predicate that keeps what is no source line of a session.
pub open spec fn keeps_unsourced() -> spec_fn(Seq<char>) -> bool {
    keeps_without(source_prefix())
}

/// The predicate that picks the source lines of sessions.
pub open spec fn picks_source() -> spec_fn(Seq<char>) -> bool {
    |line: Seq<char>| is_source_line(line)
}

/// The profile after a sync: its lines but for the source lines of
/// sessions, each as it was and in order, then the one source line for
/// `path`; every line is ended by a line feed.
pub open spec fn synced_text(content: Seq<char>, path: Seq<char>) -> Seq<char> {
    join_ended(lines(content).filter(keeps_unsourced()).push(source_line(path)), line_feed())
}

/// The profile after a logout took the source lines of sessions out: the
/// other lines, each as it was and in order, each ended by a line feed.
pub open spec fn unsynced_text(content: Seq<char>) -> Seq<char> {
    join_ended(lines(content).filter(keeps_unsourced()), line_feed())
}

/// The lines of `ls` that do not begin with `prefix`.
pub fn lines_without_prefix(ls: &Vec<Vec<char>>, prefix: &Vec<char>) -> (kept: Vec<Vec<char>>)
    ensures
        views_of(kept@) == views_of(ls@).filter(keeps_without(prefix@)),
{
    let mut kept: Vec<Vec<char>> = Vec::new();
    let mut i: usize = 0;
    let ghost all = views_of(ls@);
    let ghost keeps = keeps_without(prefix@);
    proof {
        lemma_filter_start(all, keeps);
        assert(views_of(kept@) =~= Seq::<Seq<char>>::empty());
    }
    while i < ls.len()
        invariant
            i <= ls.len(),
            all == views_of(ls@),
            keeps == keeps_without(prefix@),
            views_of(kept@) == all.take(i as int).filter(keeps),
        decreases ls.len() - i,
    {
        let drop = starts_with(&ls[i], prefix);
        proof {
            lemma_filter_next(all, i as int, keeps);
            assert(views_of(kept@.push(ls@[i as int])) =~= views_of(kept@).push(all[i as int]));
        }
        if !drop {
            kept.push(ls[i].clone());
        }
        i += 1;
    }
    assert(all.take(ls.len() as int) =~= all);
    kept
}

/// The lines of `content` that are no source lines of sessions.
fn unsourced_lines(content: &str) -> (kept: Vec<Vec<char>>)
    ensures
        views_of(kept@) == lines(content@).filter(keeps_unsourced()),
{
    let ls = split_lines(&chars_of(content));
    lines_without_prefix(&ls, &chars_of("source /tmp/tsh_proxy_"))
}

/// The lines, each ended by a line feed.
fn written(ls: &Vec<Vec<char>>) -> (text: String)
    ensures
        text@ == join_ended(views_of(ls@), line_feed()),
{
    let feed = chars_of("\n");
    proof {
        reveal_strlit("\n");
        assert(feed@ =~= line_feed());
    }
    string_of(&join_each_ended(ls, &feed))
}

/// The forward sync: the profile without the source lines of sessions and
/// with one source line for the artifact at `path` after its other lines.
pub fn sync_profile(content: &str, path: &str) -> (synced: String)
    ensures
        synced@ == synced_text(content@, path@),
{
    let mut kept = unsourced_lines(content);
    let mut line = chars_of("source ");
    append_str(&mut line, path);
    proof {
        assert(views_of(kept@.push(line)) =~= views_of(kept@).push(line@));
    }
    kept.push(line);
    written(&kept)
}

/// The reverse of the sync: the profile without the source lines of
/// sessions.
pub fn unsync_profile(content: &str) -> (cleaned: String)
    ensures
        cleaned@ == unsynced_text(content@),
{
    let kept = unsourced_lines(content);
    written(&kept)
}

/// The shell families that the helper tells apart.
#[derive(Debug, Clone, Copy, PartialEq, Eq, Structural)]
pub enum ShellType {
    Bash,
    Zsh,
    Fish,
    Unknown,
}

/// The family that a `SHELL` value stands for: the first of `zsh`, `bash`
/// and `fish` that occurs in it; none of them, or no value, is unknown.
pub open spec fn shell_type_of(shell: Option<Seq<char>>) -> ShellType {
    match shell {
        None => ShellType::Unknown,
        Some(s) => if has_infix(s, "zsh"@) {
            ShellType::Zsh
        } else if has_infix(s, "bash"@) {
            ShellType::Bash
        } else if has_infix(s, "fish"@) {
            ShellType::Fish
        } else {
            ShellType::Unknown
        },
    }
}

/// The profile file of each family, below the home directory.
pub open spec fn profile_name_of(shell_type: ShellType) -> Seq<char> {
    match shell_type {
        ShellType::Zsh => ".zshrc"@,
        ShellType::Bash => ".bash_profile"@,
        ShellType::Fish => ".config/fish/config.fish"@,
        ShellType::Unknown => ".profile"@,
    }
}

/// The program that runs a command line in each family.
pub open spec fn shell_program_of(shell_type: ShellType) -> Seq<char> {
    match shell_type {
        ShellType::Zsh => "zsh"@,
        ShellType::Bash => "bash"@,
        ShellType::Fish => "fish"@,
        ShellType::Unknown => "sh"@,
    }
}

/// A file name below a directory: a `/` stands between the two unless the
/// directory is empty or ends with one.
pub open spec fn path_below(dir: Seq<char>, name: Seq<char>) -> Seq<char> {
    if dir.len() == 0 || dir.last() == '/' {
        dir + name
    } else {
        dir + seq!['/'] + name
    }
}

/// The comment that marks what the helper adds to a profile.
pub open spec fn marker_comment() -> Seq<char> {
    "# Added by th"@
}

/// Whether a profile line is one of the helper's: the source line of a
/// session, the marker comment, the name of its credentials file, its
/// variable prefix, or an AWS export that names teleport.
pub open spec fn is_th_related(line: Seq<char>) -> bool {
    ||| is_source_line(line)
    ||| has_infix(line, marker_comment())
    ||| has_infix(line, "yl_aws_credentials"@)
    ||| has_infix(line, "TH_AWS_"@)
    ||| (has_infix(line, "export AWS_"@) && has_infix(line, "teleport"@))
}

/// The predicate that keeps the lines that are not the helper's.
pub open spec fn keeps_foreign() -> spec_fn(Seq<char>) -> bool {
    |line: Seq<char>| !is_th_related(line)
}

/// The profile after a cleanup: the lines that are not the helper's, each
/// with a line feed after it.
pub open spec fn cleaned_text(content: Seq<char>) -> Seq<char> {
    join_ended(lines(content).filter(keeps_foreign()), line_feed())
}

/// What is written after a profile to add `content` to it: nothing where
/// the profile holds `content` already, else an empty line's end, the marker
/// comment and `content`, each on a line of its own.
pub open spec fn addition_for(existing: Seq<char>, content: Seq<char>) -> Option<Seq<char>> {
    if has_infix(existing, content) {
        None
    } else {
        Some(line_feed() + marker_comment() + line_feed() + content + line_feed())
    }
}

/// The command that sets a variable for good in each family.
pub open spec fn set_command_of(shell_type: ShellType, key: Seq<char>, value: Seq<char>) -> Seq<
    char,
> {
    if shell_type == ShellType::Fish {
        "set -x "@ + key + " "@ + value
    } else {
        "export "@ + key + "="@ + value
    }
}

/// The command that unsets a variable in each family.
pub open spec fn unset_command_of(shell_type: ShellType, key: Seq<char>) -> Seq<char> {
    if shell_type == ShellType::Fish {
        "set -e "@ + key
    } else {
        "unset "@ + key
    }
}

/// Whether a family supports a named feature of the helper.
pub open spec fn supports(shell_type: ShellType, feature: Seq<char>) -> bool {
    if feature == "colors"@ || feature == "functions"@ {
        shell_type != ShellType::Unknown
    } else if feature == "completion"@ {
        shell_type == ShellType::Zsh || shell_type == ShellType::Bash
    } else {
        false
    }
}

/// Whether a file in the temporary directory is one of the helper's
/// credential files.
pub open spec fn is_temp_credential_name(name: Seq<char>) -> bool {
    has_prefix(name, "yl_"@) || has_prefix(name, "tsh_"@) || has_prefix(name, "admin_"@)
}

/// The family that a `SHELL` value stands for.
pub fn detect_shell(shell: Option<&str>) -> (shell_type: ShellType)
    ensures
        shell_type == shell_type_of(
            match shell {
                Some(s) => Some(s@),
                None => None,
            },
        ),
{
    match shell {
        None => ShellType::Unknown,
        Some(s) => {
            let chars = chars_of(s);
            if contains(&chars, &chars_of("zsh")) {
                ShellType::Zsh
            } else if contains(&chars, &chars_of("bash")) {
                ShellType::Bash
            } else if contains(&chars, &chars_of("fish")) {
                ShellType::Fish
            } else {
                ShellType::Unknown
            }
        },
    }
}

/// The profile file of a family, below the home directory.
pub fn profile_name(shell_type: ShellType) -> (name: &'static str)
    ensures
        name@ == profile_name_of(shell_type),
{
    match shell_type {
        ShellType::Zsh => ".zshrc",
        ShellType::Bash => ".bash_profile",
        ShellType::Fish => ".config/fish/config.fish",
        ShellType::Unknown => ".profile",
    }
}

/// The path of the file `name` below the directory `dir`.
pub fn join_path(dir: &str, name: &str) -> (path: String)
    ensures
        path@ == path_below(dir@, name@),
{
    let mut out = chars_of(dir);
    if out.len() > 0 && out[out.len() - 1] != '/' {
        out.push('/');
        assert(out@ =~= dir@ + seq!['/']);
    }
    append_str(&mut out, name);
    string_of(&out)
}

/// Whether a line of characters is one of the helper's.
pub fn chars_are_th_related(line: &Vec<char>) -> (b: bool)
    ensures
        b == is_th_related(line@),
{
    starts_with(line, &chars_of("source /tmp/tsh_proxy_")) || contains(
        line,
        &chars_of("# Added by th"),
    ) || contains(line, &chars_of("yl_aws_credentials"))
        || contains(line, &chars_of("TH_AWS_")) || (contains(line, &chars_of("export AWS_"))
        && contains(line, &chars_of("teleport")))
}

/// The lines of `ls` that are not the helper's.
pub fn foreign_lines_of(ls: &Vec<Vec<char>>) -> (kept: Vec<Vec<char>>)
    ensures
        views_of(kept@) == views_of(ls@).filter(keeps_foreign()),
{
    let mut kept: Vec<Vec<char>> = Vec::new();
    let mut i: usize = 0;
    let ghost all = views_of(ls@);
    proof {
        lemma_filter_start(all, keeps_foreign());
        assert(views_of(kept@) =~= Seq::<Seq<char>>::empty());
    }
    while i < ls.len()
        invariant
            i <= ls.len(),
            all == views_of(ls@),
            views_of(kept@) == all.take(i as int).filter(keeps_foreign()),
        decreases ls.len() - i,
    {
        let drop = chars_are_th_related(&ls[i]);
        proof {
            lemma_filter_next(all, i as int, keeps_foreign());
            assert(all[i as int] == ls@[i as int]@);
            if !drop {
                assert(views_of(kept@.push(ls@[i as int])) =~= views_of(kept@).push(
                    ls@[i as int]@,
                ));
            }
        }
        if !drop {
            kept.push(ls[i].clone());
        }
        i += 1;
    }
    assert(all.take(ls.len() as int) =~= all);
    kept
}

/// What the helper knows of the operator's shell.
pub struct ShellIntegration {
    pub shell_type: ShellType,
    pub profile_path: String,
}

impl ShellIntegration {
    /// The integration for a `SHELL` value and a home directory. Without a
    /// home directory there is no profile to work on.
    pub fn new(shell: Option<&str>, home: Option<&str>) -> (made: Result<ShellIntegration, ThError>)
        ensures
            match made {
                Ok(s) => home is Some && s.shell_type == shell_type_of(
                    match shell {
                        Some(v) => Some(v@),
                        None => None,
                    },
                ) && s.profile_path@ == path_below(home->0@, profile_name_of(s.shell_type)),
                Err(e) => home is None && e is Shell && e->Shell_0@
                    == "Could not determine home directory"@,
            },
    {
        let shell_type = detect_shell(shell);
        match home {
            None => Err(ThError::Shell(String::from_str("Could not determine home directory"))),
            Some(dir) => {
                let profile_path = join_path(dir, profile_name(shell_type));
                Ok(ShellIntegration { shell_type, profile_path })
            },
        }
    }

    /// What to write after the profile `existing` to add `content` to it.
    pub fn add_to_profile(&self, existing: &str, content: &str) -> (addition: Option<String>)
        ensures
            match addition {
                Some(a) => addition_for(existing@, content@) == Some(a@),
                None => addition_for(existing@, content@) is None,
            },
    {
        let held = chars_of(existing);
        let wanted = chars_of(content);
        if contains(&held, &wanted) {
            return None;
        }
        proof {
            reveal_strlit("\n");
            assert("\n"@ =~= line_feed());
        }
        let mut out = chars_of("\n");
        append_str(&mut out, "# Added by th");
        append_str(&mut out, "\n");
        append_str(&mut out, content);
        append_str(&mut out, "\n");
        Some(string_of(&out))
    }

    /// The profile `existing` made to source `credentials_file` in new
    /// shells: earlier source lines of sessions and of this file are taken
    /// out, with the marker comment before them, and the marker comment and
    /// the one source line for the file come after the other lines.
    pub fn source_aws_credentials(&self, existing: &str, credentials_file: &str) -> (profile:
        String)
        ensures
            profile@ == sourced_text(existing@, credentials_file@),
    {
        let ls = split_lines(&chars_of(existing));
        let mut line = chars_of("source ");
        append_str(&mut line, credentials_file);
        let mut kept = lines_without_sourcing(&ls, &line);
        let marker = chars_of("# Added by th");
        proof {
            assert(views_of(kept@.push(marker).push(line)) =~= views_of(kept@).push(
                marker@,
            ).push(line@));
        }
        kept.push(marker);
        kept.push(line);
        written(&kept)
    }

    /// The profile `content` without the helper's lines.
    pub fn cleanup_profile(&self, content: &str) -> (cleaned: String)
        ensures
            cleaned@ == cleaned_text(content@),
    {
        let chars = chars_of(content);
        let ls = split_lines(&chars);
        let kept = foreign_lines_of(&ls);
        let feed = chars_of("\n");
        proof {
            reveal_strlit("\n");
            assert(feed@ =~= line_feed());
        }
        let out = join_each_ended(&kept, &feed);
        string_of(&out)
    }

    /// Whether a profile line is one of the helper's.
    pub fn is_th_related_line(&self, line: &str) -> (b: bool)
        ensures
            b == is_th_related(line@),
    {
        let chars = chars_of(line);
        chars_are_th_related(&chars)
    }

    /// Whether a file in the temporary directory is one that a cleanup
    /// removes.
    pub fn is_temp_credential_file(name: &str) -> (b: bool)
        ensures
            b == is_temp_credential_name(name@),
    {
        let chars = chars_of(name);
        starts_with(&chars, &chars_of("yl_")) || starts_with(&chars, &chars_of("tsh_"))
            || starts_with(&chars, &chars_of("admin_"))
    }

    /// The program and arguments that run `command` in the operator's shell.
    pub fn execute_in_shell(&self, command: &str) -> (invocation: (&'static str, Vec<String>))
        ensures
            invocation.0@ == shell_program_of(self.shell_type),
            invocation.1@.len() == 2,
            invocation.1@[0]@ == "-c"@,
            invocation.1@[1]@ == command@,
    {
        let program = match self.shell_type {
            ShellType::Zsh => "zsh",
            ShellType::Bash => "bash",
            ShellType::Fish => "fish",
            ShellType::Unknown => "sh",
        };
        let mut args: Vec<String> = Vec::new();
        args.push(String::from_str("-c"));
        args.push(String::from_str(command));
        (program, args)
    }

    /// What to write after the profile `existing` so that new shells hold
    /// `key` with `value`.
    pub fn set_env_var(&self, existing: &str, key: &str, value: &str) -> (addition: Option<String>)
        ensures
            match addition {
                Some(a) => addition_for(existing@, set_command_of(self.shell_type, key@, value@))
                    == Some(a@),
                None => addition_for(existing@, set_command_of(self.shell_type, key@, value@))
                    is None,
            },
    {
        let mut line: Vec<char>;
        if self.shell_type == ShellType::Fish {
            line = chars_of("set -x ");
            append_str(&mut line, key);
            append_str(&mut line, " ");
            append_str(&mut line, value);
        } else {
            line = chars_of("export ");
            append_str(&mut line, key);
            append_str(&mut line, "=");
            append_str(&mut line, value);
        }
        let line = string_of(&line);
        self.add_to_profile(existing, line.as_str())
    }

    /// The command that unsets `key` in the operator's shell.
    pub fn unset_env_var(&self, key: &str) -> (command: String)
        ensures
            command@ == unset_command_of(self.shell_type, key@),
    {
        let mut line: Vec<char>;
        if self.shell_type == ShellType::Fish {
            line = chars_of("set -e ");
        } else {
            line = chars_of("unset ");
        }
        append_str(&mut line, key);
        string_of(&line)
    }

    /// Whether the operator's shell supports a named feature.
    pub fn supports_feature(&self, feature: &str) -> (b: bool)
        ensures
            b == supports(self.shell_type, feature@),
    {
        if same_str(feature, "colors") || same_str(feature, "functions") {
            self.shell_type != ShellType::Unknown
        } else if same_str(feature, "completion") {
            self.shell_type == ShellType::Zsh || self.shell_type == ShellType::Bash
        } else {
            false
        }
    }
}

/// The predicate that picks the helper's credential files.
pub open spec fn picks_temp_credentials() -> spec_fn(Seq<char>) -> bool {
    |name: Seq<char>| is_temp_credential_name(name)
}

/// The name and value of a line of `env` output: what stands before its
/// first `=`, and what stands after it. A line without `=` gives nothing.
pub open spec fn env_pair_of(line: Seq<char>) -> Option<(Seq<char>, Seq<char>)> {
    let k = index_of(line, '=');
    if k < line.len() {
        Some((line.take(k), line.skip(k + 1)))
    } else {
        None
    }
}

/// The pairs that the lines of `env` output give, in the order of the lines.
pub open spec fn env_pairs_of(ls: Seq<Seq<char>>) -> Seq<(Seq<char>, Seq<char>)>
    decreases ls.len(),
{
    if ls.len() == 0 {
        Seq::empty()
    } else {
        let before = env_pairs_of(ls.drop_last());
        match env_pair_of(ls.last()) {
            Some(pair) => before.push(pair),
            None => before,
        }
    }
}

impl ShellIntegration {
    /// The names among those of the temporary directory that a cleanup removes.
    pub fn cleanup_temp_files(names: &Vec<String>) -> (doomed: Vec<String>)
        ensures
            string_views(doomed@) == string_views(names@).filter(picks_temp_credentials()),
    {
        let mut doomed: Vec<String> = Vec::new();
        let mut i: usize = 0;
        let ghost all = string_views(names@);
        proof {
            lemma_filter_start(all, picks_temp_credentials());
            assert(string_views(doomed@) =~= Seq::<Seq<char>>::empty());
        }
        while i < names.len()
            invariant
                i <= names.len(),
                all == string_views(names@),
                string_views(doomed@) == all.take(i as int).filter(picks_temp_credentials()),
            decreases names.len() - i,
        {
            let pick = ShellIntegration::is_temp_credential_file(names[i].as_str());
            proof {
                lemma_filter_next(all, i as int, picks_temp_credentials());
                assert(all[i as int] == names@[i as int]@);
            }
            if pick {
                let name = names[i].clone();
                proof {
                    assert(string_views(doomed@.push(name)) =~= string_views(doomed@).push(
                        names@[i as int]@,
                    ));
                }
                doomed.push(name);
            }
            i += 1;
        }
        assert(all.take(names.len() as int) =~= all);
        doomed
    }

    /// The variables that the output of `env` lists, in its order. Where a name
    /// comes twice, the later line is the one in force.
    pub fn get_shell_env(&self, output: &str) -> (vars: Vec<(String, String)>)
        ensures
            crate::exporter::pair_views(vars@) == env_pairs_of(lines(output@)),
    {
        let chars = chars_of(output);
        let ls = split_lines(&chars);
        let mut vars: Vec<(String, String)> = Vec::new();
        let mut i: usize = 0;
        let ghost all = views_of(ls@);
        proof {
            assert(all.take(0) =~= Seq::<Seq<char>>::empty());
            assert(crate::exporter::pair_views(vars@) =~= env_pairs_of(all.take(0)));
        }
        while i < ls.len()
            invariant
                i <= ls.len(),
                all == views_of(ls@),
                crate::exporter::pair_views(vars@) == env_pairs_of(all.take(i as int)),
            decreases ls.len() - i,
        {
            let line = &ls[i];
            let k = find_char(line, '=');
            proof {
                lemma_index_of(line@, '=');
                let next = all.take(i + 1);
                assert(next.drop_last() =~= all.take(i as int));
                assert(next.last() == line@);
            }
            if k < line.len() {
                let name = slice_of(line, 0, k);
                let value = slice_of(line, k + 1, line.len());
                let name = string_of(&name);
                let value = string_of(&value);
                proof {
                    assert(line@.take(k as int) =~= line@.subrange(0, k as int));
                    assert(line@.skip(k + 1) =~= line@.subrange(k + 1, line.len() as int));
                    assert(crate::exporter::pair_views(vars@.push((name, value)))
                        =~= crate::exporter::pair_views(vars@).push((name@, value@)));
                }
                vars.push((name, value));
            }
            i += 1;
        }
        assert(all.take(ls.len() as int) =~= all);
        vars
    }
}

/// Whether a call that makes shells source a file takes `line` out of the
/// profile: it is the source line of a session, or the very line that the
/// call puts in.
pub open spec fn is_replaced(line: Seq<char>, new_line: Seq<char>) -> bool {
    is_source_line(line) || line == new_line
}

/// The lines that a call that puts in `new_line` keeps: all but the lines
/// that it replaces, and but the marker comment directly before such a
/// line, which an earlier call put there with it.
pub open spec fn without_sourcing(ls: Seq<Seq<char>>, new_line: Seq<char>) -> Seq<Seq<char>>
    decreases ls.len(),
{
    if ls.len() == 0 {
        Seq::empty()
    } else if is_replaced(ls[0], new_line) {
        without_sourcing(ls.drop_first(), new_line)
    } else if ls[0] == marker_comment() && ls.len() > 1 && is_replaced(ls[1], new_line) {
        without_sourcing(ls.drop_first(), new_line)
    } else {
        seq![ls[0]] + without_sourcing(ls.drop_first(), new_line)
    }
}

/// The profile after a call that makes shells source `file`: the lines
/// that the call keeps, each as it was and in order, then the marker
/// comment and the one source line for `file`; every line is ended by a
/// line feed.
pub open spec fn sourced_text(existing: Seq<char>, file: Seq<char>) -> Seq<char> {
    join_ended(
        without_sourcing(lines(existing), source_line(file)).push(marker_comment()).push(
            source_line(file),
        ),
        line_feed(),
    )
}

/// The lines of `ls` that a call that puts in `new_line` keeps.
pub fn lines_without_sourcing(ls: &Vec<Vec<char>>, new_line: &Vec<char>) -> (kept: Vec<Vec<char>>)
    ensures
        views_of(kept@) == without_sourcing(views_of(ls@), new_line@),
{
    let prefix = chars_of("source /tmp/tsh_proxy_");
    let marker = chars_of("# Added by th");
    let ghost all = views_of(ls@);
    let mut kept: Vec<Vec<char>> = Vec::new();
    let mut i: usize = 0;
    proof {
        assert(all.skip(0) =~= all);
        assert(views_of(kept@) + without_sourcing(all, new_line@) =~= without_sourcing(
            all,
            new_line@,
        ));
    }
    while i < ls.len()
        invariant
            i <= ls.len(),
            all == views_of(ls@),
            prefix@ == source_prefix(),
            marker@ == marker_comment(),
            without_sourcing(all, new_line@) == views_of(kept@) + without_sourcing(
                all.skip(i as int),
                new_line@,
            ),
        decreases ls.len() - i,
    {
        let line = &ls[i];
        let ghost rest = all.skip(i as int);
        proof {
            assert(rest[0] == line@);
            assert(rest.drop_first() =~= all.skip(i + 1));
            if i + 1 < ls.len() {
                assert(rest[1] == ls@[i + 1]@);
            }
        }
        let gone = starts_with(line, &prefix) || same_text(line, new_line);
        let with_next = !gone && same_text(line, &marker) && i + 1 < ls.len() && (starts_with(
            &ls[i + 1],
            &prefix,
        ) || same_text(&ls[i + 1], new_line));
        if !gone && !with_next {
            proof {
                assert(views_of(kept@.push(*line)) =~= views_of(kept@) + seq![line@]);
                assert(views_of(kept@) + (seq![line@] + without_sourcing(
                    all.skip(i + 1),
                    new_line@,
                )) =~= views_of(kept@.push(*line)) + without_sourcing(all.skip(i + 1), new_line@));
            }
            kept.push(line.clone());
        }
        i += 1;
    }
    proof {
        assert(all.skip(ls.len() as int).len() == 0);
        assert(views_of(kept@) + Seq::<Seq<char>>::empty() =~= views_of(kept@));
    }
    kept
}

/// The marker comment is one line without a carriage return at its end,
/// one of the helper's lines, and no source line.
pub proof fn lemma_marker_shape()
    ensures
        is_single_line(marker_comment()),
        strip_cr(marker_comment()) == marker_comment(),
        is_th_related(marker_comment()),
        !is_source_line(marker_comment()),
        forall|path: Seq<char>| marker_comment() != #[trigger] source_line(path),
{
    reveal_strlit("# Added by th");
    reveal_strlit("source /tmp/tsh_proxy_");
    reveal_strlit("source ");
    let marker = marker_comment();
    assert(marker.subrange(0, 0 + marker.len() as int) =~= marker);
    assert(crate::text::occurs_at(marker, marker, 0));
    assert forall|path: Seq<char>| marker != #[trigger] source_line(path) by {
        assert(source_line(path)[0] == 's');
    }
}

/// The source line for a path of one line is one line.
pub proof fn lemma_source_line_single(path: Seq<char>)
    requires
        is_single_line(path),
    ensures
        is_single_line(source_line(path)),
{
    reveal_strlit("source ");
    let line = source_line(path);
    assert forall|j: int| 0 <= j < line.len() implies line[j] != '\n' by {
        if j < 7 {
            assert(line[j] == "source "@[j]);
        } else {
            assert(line[j] == path[j - 7]);
        }
    }
}

/// The path of the artifact of a target of one line is one line.
pub proof fn lemma_path_single(target: Seq<char>)
    requires
        is_single_line(target),
    ensures
        is_single_line(artifact_path_of(target)),
{
    reveal_strlit("/tmp/tsh_proxy_");
    reveal_strlit(".log");
    let path = artifact_path_of(target);
    assert forall|j: int| 0 <= j < path.len() implies path[j] != '\n' by {
        if j < 15 {
            assert(path[j] == "/tmp/tsh_proxy_"@[j]);
        } else if j < 15 + target.len() {
            assert(path[j] == target[j - 15]);
        } else {
            assert(path[j] == ".log"@[j - 15 - target.len()]);
        }
    }
}

/// The source line of a session's artifact is one line, does not end with a
/// carriage return, is known as a source line, and is one of the helper's
/// lines.
pub proof fn lemma_source_line_shape(target: Seq<char>)
    requires
        is_single_line(target),
    ensures
        is_single_line(source_line(artifact_path_of(target))),
        strip_cr(source_line(artifact_path_of(target))) == source_line(artifact_path_of(target)),
        is_source_line(source_line(artifact_path_of(target))),
        is_th_related(source_line(artifact_path_of(target))),
{
    reveal_strlit("source ");
    reveal_strlit("/tmp/tsh_proxy_");
    reveal_strlit(".log");
    reveal_strlit("source /tmp/tsh_proxy_");
    lemma_path_single(target);
    lemma_source_line_single(artifact_path_of(target));
    let line = source_line(artifact_path_of(target));
    let head = "source "@ + "/tmp/tsh_proxy_"@;
    assert(line =~= head + target + ".log"@);
    assert(line.last() == ".log"@[3]);
    assert(line.take(22) =~= source_prefix()) by {
        assert forall|j: int| 0 <= j < 22 implies line.take(22)[j] == source_prefix()[j] by {
            assert(line[j] == head[j]);
        }
    }
}

/// The lines of a synced profile: the kept lines, then the source line,
/// each without the carriage return at its end.
pub proof fn lemma_lines_of_synced(content: Seq<char>, path: Seq<char>)
    requires
        is_single_line(path),
    ensures
        lines(synced_text(content, path)) == strip_cr_each(
            lines(content).filter(keeps_unsourced()),
        ).push(strip_cr(source_line(path))),
{
    let kept = lines(content).filter(keeps_unsourced());
    let all = kept.push(source_line(path));
    lemma_source_line_single(path);
    lemma_lines_single(content);
    lemma_filter_single(lines(content), keeps_unsourced());
    assert forall|i: int| 0 <= i < all.len() implies is_single_line(#[trigger] all[i]) by {
        if i < kept.len() {
            assert(all[i] == kept[i]);
        }
    }
    lemma_lines_of_ended(all);
    assert(strip_cr_each(all) =~= strip_cr_each(kept).push(strip_cr(source_line(path))));
}

/// What a filter keeps of lines without a carriage return at their end are
/// such lines, and they are read back as they were written.
pub proof fn lemma_kept_as_written(ls: Seq<Seq<char>>, pred: spec_fn(Seq<char>) -> bool)
    requires
        none_ends_with_cr(ls),
    ensures
        strip_cr_each(ls.filter(pred)) == ls.filter(pred),
{
    let kept = ls.filter(pred);
    assert forall|i: int| 0 <= i < kept.len() implies strip_cr(#[trigger] kept[i]) == kept[i] by {
        assert(kept.contains(kept[i]));
        ls.lemma_filter_contains_rev(pred, kept[i]);
    }
    assert(strip_cr_each(kept) =~= kept);
}

/// What a sync keeps holds no source line, also once written and read
/// back.
pub proof fn lemma_kept_unsourced(content: Seq<char>)
    ensures
        forall|i: int|
            0 <= i < lines(content).filter(keeps_unsourced()).len() ==> !is_source_line(
                #[trigger] strip_cr_each(lines(content).filter(keeps_unsourced()))[i],
            ),
{
    let kept = lines(content).filter(keeps_unsourced());
    let back = strip_cr_each(kept);
    assert forall|i: int| 0 <= i < kept.len() implies !is_source_line(#[trigger] back[i]) by {
        lines(content).lemma_filter_pred(keeps_unsourced(), i);
        if is_source_line(back[i]) {
            lemma_prefix_before_cr(kept[i], source_prefix());
        }
    }
}

/// After a sync, and so after two in a row for the same session, the
/// profile holds exactly one source line of a session: the one for that
/// session's artifact. Earlier ones are replaced, never doubled.
pub proof fn law_sync_leaves_one_source_line(content: Seq<char>, target: Seq<char>)
    requires
        is_single_line(target),
    ensures
        lines(synced_text(content, artifact_path_of(target))).filter(picks_source())
            == seq![source_line(artifact_path_of(target))],
        lines(
            synced_text(
                synced_text(content, artifact_path_of(target)),
                artifact_path_of(target),
            ),
        ).filter(picks_source()) == seq![source_line(artifact_path_of(target))],
{
    lemma_one_source_line(content, target);
    lemma_one_source_line(synced_text(content, artifact_path_of(target)), target);
}

/// After one sync the profile holds exactly one source line of a session.
pub proof fn lemma_one_source_line(content: Seq<char>, target: Seq<char>)
    requires
        is_single_line(target),
    ensures
        lines(synced_text(content, artifact_path_of(target))).filter(picks_source())
            == seq![source_line(artifact_path_of(target))],
{
    let line = source_line(artifact_path_of(target));
    let back = strip_cr_each(lines(content).filter(keeps_unsourced()));
    lemma_path_single(target);
    lemma_lines_of_synced(content, artifact_path_of(target));
    lemma_kept_unsourced(content);
    lemma_source_line_shape(target);
    lemma_filter_none(back, picks_source());
    lemma_filter_push(back, line, picks_source());
    assert(back.filter(picks_source()).push(line) =~= seq![line]);
}

/// A sync after a sync for the same session changes nothing: the profile
/// is the same, character by character. A profile with a line that ends in
/// a carriage return is left out: the first sync writes such a line back
/// with it, the second without.
pub proof fn law_sync_is_idempotent(content: Seq<char>, target: Seq<char>)
    requires
        is_single_line(target),
        none_ends_with_cr(lines(content)),
    ensures
        synced_text(synced_text(content, artifact_path_of(target)), artifact_path_of(target))
            == synced_text(content, artifact_path_of(target)),
{
    let path = artifact_path_of(target);
    let line = source_line(path);
    let kept = lines(content).filter(keeps_unsourced());
    lemma_path_single(target);
    lemma_lines_of_synced(content, path);
    lemma_kept_unsourced(content);
    lemma_kept_as_written(lines(content), keeps_unsourced());
    lemma_source_line_shape(target);
    lemma_filter_all(kept, keeps_unsourced());
    lemma_filter_push(kept, line, keeps_unsourced());
}

/// Taking the source lines out after a sync gives what it gives of the
/// profile before the sync: the line that the sync put in is gone, and the
/// lines of the profile are those it had before that are no source lines
/// of sessions, each as it was and in order. A profile with a line that
/// ends in a carriage return is left out: a sync writes such a line back
/// without it.
pub proof fn law_unsync_undoes_sync(content: Seq<char>, target: Seq<char>)
    requires
        is_single_line(target),
        none_ends_with_cr(lines(content)),
    ensures
        unsynced_text(synced_text(content, artifact_path_of(target))) == unsynced_text(content),
        lines(unsynced_text(synced_text(content, artifact_path_of(target)))) == lines(
            content,
        ).filter(keeps_unsourced()),
        (forall|i: int| 0 <= i < lines(content).len() ==> !is_source_line(#[trigger] lines(content)[i]))
            ==> lines(unsynced_text(synced_text(content, artifact_path_of(target)))) == lines(
            content,
        ),
{
    if forall|i: int| 0 <= i < lines(content).len() ==> !is_source_line(#[trigger] lines(content)[i]) {
        lemma_filter_all(lines(content), keeps_unsourced());
    }
    let path = artifact_path_of(target);
    let line = source_line(path);
    let kept = lines(content).filter(keeps_unsourced());
    lemma_path_single(target);
    lemma_lines_of_synced(content, path);
    lemma_kept_unsourced(content);
    lemma_kept_as_written(lines(content), keeps_unsourced());
    lemma_source_line_shape(target);
    lemma_filter_all(kept, keeps_unsourced());
    lemma_filter_push(kept, line, keeps_unsourced());
    lemma_lines_single(content);
    lemma_filter_single(lines(content), keeps_unsourced());
    lemma_lines_of_ended(kept);
}

/// A source line of a session is one of the helper's lines, so what is
/// none of the helper's is no source line.
pub proof fn lemma_foreign_is_unsourced(ls: Seq<Seq<char>>)
    ensures
        ls.filter(keeps_unsourced()).filter(keeps_foreign()) == ls.filter(keeps_foreign()),
{
    lemma_filter_twice(ls, keeps_unsourced(), keeps_foreign(), keeps_foreign());
}

/// A cleanup after a sync gives what it gives of the profile before the
/// sync: the source line is gone with the helper's other lines, and the
/// lines of the profile are those it had before that are not the helper's,
/// each as it was and in order. A profile with a line that ends in a
/// carriage return is left out, as for a logout.
pub proof fn law_cleanup_after_sync(content: Seq<char>, target: Seq<char>)
    requires
        is_single_line(target),
        none_ends_with_cr(lines(content)),
    ensures
        cleaned_text(synced_text(content, artifact_path_of(target))) == cleaned_text(content),
        lines(cleaned_text(synced_text(content, artifact_path_of(target)))) == lines(
            content,
        ).filter(keeps_foreign()),
{
    let path = artifact_path_of(target);
    let line = source_line(path);
    let kept = lines(content).filter(keeps_unsourced());
    let foreign = lines(content).filter(keeps_foreign());
    lemma_path_single(target);
    lemma_lines_of_synced(content, path);
    lemma_kept_as_written(lines(content), keeps_unsourced());
    lemma_source_line_shape(target);
    lemma_filter_push(kept, line, keeps_foreign());
    lemma_foreign_is_unsourced(lines(content));
    lemma_lines_single(content);
    lemma_filter_single(lines(content), keeps_foreign());
    lemma_kept_as_written(lines(content), keeps_foreign());
    lemma_lines_of_ended(foreign);
}

/// Every line that a call keeps was a line before, and none of them is one
/// that the call replaces.
pub proof fn lemma_without_sourcing(ls: Seq<Seq<char>>, new_line: Seq<char>)
    ensures
        forall|i: int|
            0 <= i < without_sourcing(ls, new_line).len() ==> ls.contains(
                #[trigger] without_sourcing(ls, new_line)[i],
            ) && !is_replaced(without_sourcing(ls, new_line)[i], new_line),
    decreases ls.len(),
{
    if ls.len() > 0 {
        let rest = ls.drop_first();
        let kept = without_sourcing(ls, new_line);
        let inner = without_sourcing(rest, new_line);
        lemma_without_sourcing(rest, new_line);
        assert forall|i: int| 0 <= i < kept.len() implies ls.contains(#[trigger] kept[i])
            && !is_replaced(kept[i], new_line) by {
            if kept.len() == inner.len() {
                assert(kept == inner);
                let j = choose|j: int| 0 <= j < rest.len() && rest[j] == inner[i];
                assert(ls[j + 1] == kept[i]);
            } else if i == 0 {
                assert(kept[0] == ls[0]);
            } else {
                assert(kept[i] == inner[i - 1]);
                let j = choose|j: int| 0 <= j < rest.len() && rest[j] == inner[i - 1];
                assert(ls[j + 1] == kept[i]);
            }
        }
    }
}

/// A call keeps every line that is not the helper's: what it takes out is
/// a source line or the marker comment, where the line that it puts in is
/// one of the helper's.
pub proof fn lemma_without_sourcing_foreign(ls: Seq<Seq<char>>, new_line: Seq<char>)
    requires
        is_th_related(new_line),
    ensures
        without_sourcing(ls, new_line).filter(keeps_foreign()) == ls.filter(keeps_foreign()),
    decreases ls.len(),
{
    if ls.len() > 0 {
        let rest = ls.drop_first();
        lemma_without_sourcing_foreign(rest, new_line);
        lemma_marker_shape();
        assert(ls =~= seq![ls[0]] + rest);
        lemma_filter_first(ls[0], rest, keeps_foreign());
        lemma_filter_first(ls[0], without_sourcing(rest, new_line), keeps_foreign());
    }
}

/// A call on what a call left, with its marker comment and source line
/// after it, keeps what the first call kept.
pub proof fn lemma_without_sourcing_again(kept: Seq<Seq<char>>, new_line: Seq<char>)
    requires
        forall|i: int| 0 <= i < kept.len() ==> !is_replaced(#[trigger] kept[i], new_line),
        !is_replaced(marker_comment(), new_line),
    ensures
        without_sourcing(kept.push(marker_comment()).push(new_line), new_line) == kept,
    decreases kept.len(),
{
    let marker = marker_comment();
    let all = kept.push(marker).push(new_line);
    if kept.len() == 0 {
        assert(all[0] == marker);
        assert(all[1] == new_line);
        let after = all.drop_first();
        assert(after[0] == new_line);
        assert(after.len() == 1);
        assert(after.drop_first() =~= Seq::<Seq<char>>::empty());
        assert(without_sourcing(after.drop_first(), new_line) =~= Seq::<Seq<char>>::empty());
        assert(is_replaced(after[0], new_line));
        assert(without_sourcing(after, new_line) =~= Seq::<Seq<char>>::empty());
        assert(without_sourcing(all, new_line) =~= kept);
    } else {
        let rest = kept.drop_first();
        assert(all[0] == kept[0]);
        if kept.len() > 1 {
            assert(all[1] == kept[1]);
        } else {
            assert(all[1] == marker);
        }
        assert forall|i: int| 0 <= i < rest.len() implies !is_replaced(
            #[trigger] rest[i],
            new_line,
        ) by {
            assert(rest[i] == kept[i + 1]);
        }
        lemma_without_sourcing_again(rest, new_line);
        assert(all.drop_first() =~= rest.push(marker).push(new_line));
        assert(seq![kept[0]] + rest =~= kept);
    }
}

/// The lines of a profile after a call that makes shells source a file of
/// one line: the kept lines, the marker comment and the source line, each
/// without the carriage return at its end.
pub proof fn lemma_lines_of_sourced(existing: Seq<char>, file: Seq<char>)
    requires
        is_single_line(file),
    ensures
        lines(sourced_text(existing, file)) == strip_cr_each(
            without_sourcing(lines(existing), source_line(file)),
        ).push(marker_comment()).push(strip_cr(source_line(file))),
{
    let kept = without_sourcing(lines(existing), source_line(file));
    let all = kept.push(marker_comment()).push(source_line(file));
    lemma_source_line_single(file);
    lemma_marker_shape();
    lemma_lines_single(existing);
    lemma_without_sourcing(lines(existing), source_line(file));
    assert forall|i: int| 0 <= i < all.len() implies is_single_line(#[trigger] all[i]) by {
        if i < kept.len() {
            assert(all[i] == kept[i]);
            let j = choose|j: int| 0 <= j < lines(existing).len() && lines(existing)[j] == kept[i];
            assert(is_single_line(lines(existing)[j]));
        }
    }
    lemma_lines_of_ended(all);
    assert(strip_cr_each(all) =~= strip_cr_each(kept).push(marker_comment()).push(
        strip_cr(source_line(file)),
    ));
}

/// What a call keeps of lines without a carriage return at their end are
/// such lines.
pub proof fn lemma_sourcing_as_written(ls: Seq<Seq<char>>, new_line: Seq<char>)
    requires
        none_ends_with_cr(ls),
    ensures
        strip_cr_each(without_sourcing(ls, new_line)) == without_sourcing(ls, new_line),
{
    let kept = without_sourcing(ls, new_line);
    lemma_without_sourcing(ls, new_line);
    assert forall|i: int| 0 <= i < kept.len() implies strip_cr(#[trigger] kept[i]) == kept[i] by {
        let j = choose|j: int| 0 <= j < ls.len() && ls[j] == kept[i];
        assert(strip_cr(ls[j]) == ls[j]);
    }
    assert(strip_cr_each(kept) =~= kept);
}

/// After a call that makes shells source a session's artifact, and so
/// after two in a row, the profile holds exactly one source line of a
/// session, the one for that artifact; and the second call changes
/// nothing, character by character. For the second part a profile with a
/// line that ends in a carriage return is left out: the first call writes
/// such a line back with it, the second without.
pub proof fn law_sourcing_is_idempotent(existing: Seq<char>, target: Seq<char>)
    requires
        is_single_line(target),
    ensures
        lines(sourced_text(existing, artifact_path_of(target))).filter(picks_source())
            == seq![source_line(artifact_path_of(target))],
        none_ends_with_cr(lines(existing)) ==> sourced_text(
            sourced_text(existing, artifact_path_of(target)),
            artifact_path_of(target),
        ) == sourced_text(existing, artifact_path_of(target)),
{
    let file = artifact_path_of(target);
    let line = source_line(file);
    let marker = marker_comment();
    let kept = without_sourcing(lines(existing), line);
    let back = strip_cr_each(kept);
    lemma_path_single(target);
    lemma_source_line_shape(target);
    lemma_marker_shape();
    lemma_lines_of_sourced(existing, file);
    lemma_without_sourcing(lines(existing), line);
    assert forall|i: int| 0 <= i < back.len() implies !is_source_line(#[trigger] back[i]) by {
        if is_source_line(back[i]) {
            lemma_prefix_before_cr(kept[i], source_prefix());
        }
    }
    lemma_filter_none(back, picks_source());
    lemma_filter_push(back, marker, picks_source());
    lemma_filter_push(back.push(marker), line, picks_source());
    assert(back.filter(picks_source()).push(line) =~= seq![line]);
    if none_ends_with_cr(lines(existing)) {
        lemma_sourcing_as_written(lines(existing), line);
        lemma_without_sourcing_again(kept, line);
    }
}

/// A cleanup after a call that made shells source a session's artifact
/// gives what it gives of the profile before the call: the marker comment
/// and the source line that the call put in are gone, and the lines of the
/// profile are those it had before that are not the helper's, each as it
/// was and in order. A profile with a line that ends in a carriage return
/// is left out: the call writes such a line back without it.
pub proof fn law_cleanup_undoes_sourcing(existing: Seq<char>, target: Seq<char>)
    requires
        is_single_line(target),
        none_ends_with_cr(lines(existing)),
    ensures
        cleaned_text(sourced_text(existing, artifact_path_of(target))) == cleaned_text(existing),
        lines(cleaned_text(sourced_text(existing, artifact_path_of(target)))) == lines(
            existing,
        ).filter(keeps_foreign()),
        (forall|i: int| 0 <= i < lines(existing).len() ==> !is_th_related(#[trigger] lines(existing)[i]))
            ==> lines(cleaned_text(sourced_text(existing, artifact_path_of(target)))) == lines(
            existing,
        ),
{
    if forall|i: int| 0 <= i < lines(existing).len() ==> !is_th_related(#[trigger] lines(existing)[i]) {
        lemma_filter_all(lines(existing), keeps_foreign());
    }
    let file = artifact_path_of(target);
    let line = source_line(file);
    let marker = marker_comment();
    let kept = without_sourcing(lines(existing), line);
    let foreign = lines(existing).filter(keeps_foreign());
    lemma_path_single(target);
    lemma_source_line_shape(target);
    lemma_marker_shape();
    lemma_lines_of_sourced(existing, file);
    lemma_sourcing_as_written(lines(existing), line);
    lemma_filter_push(kept, marker, keeps_foreign());
    lemma_filter_push(kept.push(marker), line, keeps_foreign());
    lemma_without_sourcing_foreign(lines(existing), line);
    lemma_lines_single(existing);
    lemma_filter_single(lines(existing), keeps_foreign());
    lemma_kept_as_written(lines(existing), keeps_foreign());
    lemma_lines_of_ended(foreign);
}

/// A logout's removal of source lines after another changes nothing, and
/// neither does a cleanup after a cleanup. A profile with a line that ends
/// in a carriage return is left out: it is written back with it and read
/// again without.
pub proof fn law_reverse_is_idempotent(content: Seq<char>)
    requires
        none_ends_with_cr(lines(content)),
    ensures
        unsynced_text(unsynced_text(content)) == unsynced_text(content),
        cleaned_text(cleaned_text(content)) == cleaned_text(content),
{
    let all = lines(content);
    lemma_lines_single(content);
    lemma_filter_single(all, keeps_unsourced());
    lemma_filter_single(all, keeps_foreign());
    lemma_kept_as_written(all, keeps_unsourced());
    lemma_kept_as_written(all, keeps_foreign());
    lemma_lines_of_ended(all.filter(keeps_unsourced()));
    lemma_lines_of_ended(all.filter(keeps_foreign()));
    assert forall|i: int| 0 <= i < all.filter(keeps_unsourced()).len() implies keeps_unsourced()(
        #[trigger] all.filter(keeps_unsourced())[i],
    ) by {
        all.lemma_filter_pred(keeps_unsourced(), i);
    }
    assert forall|i: int| 0 <= i < all.filter(keeps_foreign()).len() implies keeps_foreign()(
        #[trigger] all.filter(keeps_foreign())[i],
    ) by {
        all.lemma_filter_pred(keeps_foreign(), i);
    }
    lemma_filter_all(all.filter(keeps_unsourced()), keeps_unsourced());
    lemma_filter_all(all.filter(keeps_foreign()), keeps_foreign());
}

/// The two lines that an addition makes: the marker comment, then the
/// content.
pub open spec fn added_lines(content: Seq<char>) -> Seq<Seq<char>> {
    seq![marker_comment(), content]
}

/// A profile with an addition after it is the profile with its last line
/// closed, then the marker comment and the content, each ended by a line
/// feed.
pub proof fn lemma_addition_lines(existing: Seq<char>, content: Seq<char>)
    ensures
        existing + (line_feed() + marker_comment() + line_feed() + content + line_feed()) == (
        existing + line_feed()) + join_ended(added_lines(content), line_feed()),
{
    let feed = line_feed();
    let marker = marker_comment();
    lemma_join_ended_push(Seq::<Seq<char>>::empty(), marker, feed);
    assert(Seq::<Seq<char>>::empty().push(marker) =~= seq![marker]);
    assert(join_ended(Seq::<Seq<char>>::empty(), feed) =~= Seq::<char>::empty());
    lemma_join_ended_push(seq![marker], content, feed);
    assert(seq![marker].push(content) =~= seq![marker, content]);
    assert(join_ended(seq![marker, content], feed) =~= marker + feed + content + feed);
    assert(existing + (feed + marker + feed + content + feed) =~= (existing + feed) + (marker
        + feed + content + feed));
}

/// The marker comment and a line of the helper's make two lines that a
/// cleanup takes away and that are read back as they were written.
pub proof fn lemma_added_lines_shape(content: Seq<char>)
    requires
        is_single_line(content),
        is_th_related(content),
        strip_cr(content) == content,
    ensures
        all_single_line(added_lines(content)),
        strip_cr_each(added_lines(content)) == added_lines(content),
        forall|i: int|
            0 <= i < added_lines(content).len() ==> is_th_related(#[trigger] added_lines(content)[i]),
{
    lemma_marker_shape();
    let both = added_lines(content);
    assert(both[0] == marker_comment());
    assert(both[1] == content);
    assert(strip_cr_each(both) =~= both);
}

/// A cleanup keeps nothing of lines that are all the helper's, whatever
/// stands before them.
pub proof fn lemma_cleanup_drops_tail(closed: Seq<char>, tail_lines: Seq<Seq<char>>)
    requires
        closed.len() > 0,
        closed.last() == '\n',
        all_single_line(tail_lines),
        strip_cr_each(tail_lines) == tail_lines,
        forall|i: int| 0 <= i < tail_lines.len() ==> is_th_related(#[trigger] tail_lines[i]),
    ensures
        cleaned_text(closed + join_ended(tail_lines, line_feed())) == cleaned_text(closed),
{
    let tail = join_ended(tail_lines, line_feed());
    lemma_lines_concat(closed, tail);
    lemma_lines_of_ended(tail_lines);
    lemma_filter_none(tail_lines, keeps_foreign());
    Seq::filter_distributes_over_add(lines(closed), tail_lines, keeps_foreign());
    assert(lines(closed).filter(keeps_foreign()) + Seq::<Seq<char>>::empty() =~= lines(
        closed,
    ).filter(keeps_foreign()));
}

/// A cleanup after the helper added one of its own lines gives what it
/// gives of the profile before the addition, once that profile's last line
/// is closed by a line feed: the marker comment and the added line are
/// gone, and every other line stands as it would have. An added line that
/// ends in a carriage return is left out: it is read back without it.
pub proof fn law_cleanup_undoes_addition(existing: Seq<char>, content: Seq<char>)
    requires
        is_single_line(content),
        is_th_related(content),
        strip_cr(content) == content,
    ensures
        addition_for(existing, content) matches Some(added) ==> cleaned_text(existing + added)
            == cleaned_text(existing + line_feed()),
{
    let closed = existing + line_feed();
    assert(closed.last() == '\n');
    lemma_addition_lines(existing, content);
    lemma_added_lines_shape(content);
    lemma_cleanup_drops_tail(closed, added_lines(content));
}

} // verus!
