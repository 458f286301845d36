//! Turning a ready log artifact into credentials: keep the export lines, add
//! the lines derived from the target, and read every export line as a key
//! and a value.

use crate::text::{
    append_str, chars_of, find_char, has_prefix, index_of, is_single_line, is_white_space, join,
    join_ended, join_with, lemma_filter_next, lemma_filter_single, lemma_filter_start,
    lemma_index_of, lemma_index_of_is, lemma_join_ended_push, lemma_join_then_sep,
    lemma_lines_concat, lemma_lines_of_ended, lemma_lines_of_joined, lemma_lines_single,
    lemma_strip_leading_is, lemma_strip_trailing_is, lemma_trim_end_is, lemma_trim_start_is,
    line_feed, lines, matches_at, same_str, slice_of, split_lines, starts_with, string_of,
    strip_both, strip_cr, strip_cr_each, stripped_both_from, trim, trimmed, views_of,
};
use vstd::prelude::*;

verus! {

/// The keyword that opens an export statement, with the space after it.
pub open spec fn export_keyword() -> Seq<char> {
    "export "@
}

/// White space as the export-line pattern understands it: space, tab, line
/// feed, vertical tab, form feed and carriage return.
pub open spec fn is_blank(c: char) -> bool {
    c == ' ' || c == '\t' || c == '\n' || c == '\x0B' || c == '\x0C' || c == '\r'
}

/// `s` without the blanks at its start.
pub open spec fn skip_blanks(s: Seq<char>) -> Seq<char>
    decreases s.len(),
{
    if s.len() > 0 && is_blank(s[0]) {
        skip_blanks(s.drop_first())
    } else {
        s
    }
}

/// The export-line grammar: any number of blanks, then the export keyword.
pub open spec fn is_export_line(line: Seq<char>) -> bool {
    has_prefix(skip_blanks(line), export_keyword())
}

/// The predicate that keeps export lines.
pub open spec fn keeps_export() -> spec_fn(Seq<char>) -> bool {
    |line: Seq<char>| is_export_line(line)
}

/// What the filter pass leaves of an artifact: its export lines, one per
/// line, with no line feed after the last.
pub open spec fn filtered_text(content: Seq<char>) -> Seq<char> {
    join(lines(content).filter(keeps_export()), line_feed())
}

/// The prefix of a target identity that stands for the US region.
pub open spec fn us_prefix() -> Seq<char> {
    "yl-us"@
}

/// The region a target identity belongs to.
pub open spec fn region_of(target: Seq<char>) -> Seq<char> {
    if has_prefix(target, us_prefix()) {
        "us-east-2"@
    } else {
        "eu-west-1"@
    }
}

/// The three derived export lines for a target and a role, each with its
/// line feed, after the line feed that closes the filtered lines.
pub open spec fn derived_lines(target: Seq<char>, role: Seq<char>) -> Seq<char> {
    line_feed() + "export ACCOUNT="@ + target + line_feed() + "export ROLE="@ + role + line_feed()
        + "export AWS_DEFAULT_REGION="@ + region_of(target) + line_feed()
}

/// What the augment pass makes of a filtered artifact.
pub open spec fn augmented_text(filtered: Seq<char>, target: Seq<char>, role: Seq<char>) -> Seq<
    char,
> {
    filtered + derived_lines(target, role)
}

/// The key and value of an export line: the line is trimmed, must open with
/// the export keyword, and is split at its first `=`; double quotes around
/// the value are taken away. A line of another shape gives nothing; so
/// does a line without a key before the `=`, and one that holds a NUL
/// character, which no environment can hold.
pub open spec fn parse_export(line: Seq<char>) -> Option<(Seq<char>, Seq<char>)> {
    let t = trim(line);
    if has_prefix(t, export_keyword()) {
        let part = t.skip(export_keyword().len() as int);
        let k = index_of(part, '=');
        if 0 < k < part.len() && index_of(part, '\0') >= part.len() {
            Some((part.take(k), strip_both(part.skip(k + 1), '"')))
        } else {
            None
        }
    } else {
        None
    }
}

/// The pairs that the lines give, in the order of the lines; lines that do
/// not parse are passed over.
pub open spec fn credentials_of(ls: Seq<Seq<char>>) -> Seq<(Seq<char>, Seq<char>)>
    decreases ls.len(),
{
    if ls.len() == 0 {
        Seq::empty()
    } else {
        let before = credentials_of(ls.drop_last());
        match parse_export(ls.last()) {
            Some(pair) => before.push(pair),
            None => before,
        }
    }
}

/// `skip_blanks` takes away exactly the leading run of blanks.
pub proof fn lemma_skip_blanks_is(s: Seq<char>, k: int)
    requires
        0 <= k <= s.len(),
        forall|j: int| 0 <= j < k ==> is_blank(s[j]),
        k < s.len() ==> !is_blank(s[k]),
    ensures
        skip_blanks(s) == s.skip(k),
    decreases k,
{
    if k == 0 {
        assert(s.skip(0) =~= s);
    } else {
        let t = s.drop_first();
        assert forall|j: int| 0 <= j < k - 1 implies is_blank(t[j]) by {
            assert(t[j] == s[j + 1]);
        }
        lemma_skip_blanks_is(t, k - 1);
        assert(t.skip(k - 1) =~= s.skip(k));
    }
}

/// Whether `c` is a blank.
pub fn char_is_blank(c: char) -> (b: bool)
    ensures
        b == is_blank(c),
{
    c == ' ' || c == '\t' || c == '\n' || c == '\x0B' || c == '\x0C' || c == '\r'
}

/// Whether a line of characters follows the export-line grammar.
pub fn line_is_export(line: &Vec<char>) -> (b: bool)
    ensures
        b == is_export_line(line@),
{
    let mut k: usize = 0;
    while k < line.len() && char_is_blank(line[k])
        invariant
            k <= line.len(),
            forall|j: int| 0 <= j < k ==> is_blank(line@[j]),
        decreases line.len() - k,
    {
        k += 1;
    }
    let keyword = chars_of("export ");
    let b = matches_at(line, &keyword, k);
    proof {
        lemma_skip_blanks_is(line@, k as int);
        let rest = line@.skip(k as int);
        if keyword.len() <= rest.len() {
            assert(rest.take(keyword.len() as int) =~= line@.subrange(
                k as int,
                k + keyword.len(),
            ));
        }
    }
    b
}

/// Whether `line` follows the export-line grammar.
pub fn is_export_statement(line: &str) -> (b: bool)
    ensures
        b == is_export_line(line@),
{
    let chars = chars_of(line);
    line_is_export(&chars)
}

/// The export lines among `ls`, in their order.
pub fn export_lines_of(ls: &Vec<Vec<char>>) -> (kept: Vec<Vec<char>>)
    ensures
        views_of(kept@) == views_of(ls@).filter(keeps_export()),
{
    let mut kept: Vec<Vec<char>> = Vec::new();
    let mut i: usize = 0;
    let ghost all = views_of(ls@);
    proof {
        lemma_filter_start(all, keeps_export());
        assert(views_of(kept@) =~= Seq::<Seq<char>>::empty());
    }
    while i < ls.len()
        invariant
            i <= ls.len(),
            all == views_of(ls@),
            views_of(kept@) == all.take(i as int).filter(keeps_export()),
        decreases ls.len() - i,
    {
        let keep = line_is_export(&ls[i]);
        proof {
            lemma_filter_next(all, i as int, keeps_export());
            assert(all[i as int] == ls@[i as int]@);
            if keep {
                assert(views_of(kept@.push(ls@[i as int])) =~= views_of(kept@).push(
                    ls@[i as int]@,
                ));
            }
        }
        if keep {
            kept.push(ls[i].clone());
        }
        i += 1;
    }
    assert(all.take(ls.len() as int) =~= all);
    kept
}

/// The filter pass: the artifact's export lines, joined by line feeds.
pub fn filter_exports(content: &str) -> (filtered: String)
    ensures
        filtered@ == filtered_text(content@),
{
    let chars = chars_of(content);
    let ls = split_lines(&chars);
    let kept = export_lines_of(&ls);
    let feed = chars_of("\n");
    proof {
        reveal_strlit("\n");
        assert(feed@ =~= line_feed());
    }
    let joined = join_with(&kept, &feed);
    string_of(&joined)
}

/// The region export for a target identity.
pub fn region_for(target: &str) -> (region: String)
    ensures
        region@ == region_of(target@),
{
    let chars = chars_of(target);
    let prefix = chars_of("yl-us");
    if starts_with(&chars, &prefix) {
        String::from_str("us-east-2")
    } else {
        String::from_str("eu-west-1")
    }
}

/// The augment pass: the filtered artifact with the account, role and
/// region lines after it.
pub fn augment_exports(filtered: &str, target: &str, role: &str) -> (augmented: String)
    ensures
        augmented@ == augmented_text(filtered@, target@, role@),
{
    let region = region_for(target);
    let mut out = chars_of(filtered);
    proof {
        reveal_strlit("\n");
        assert("\n"@ =~= line_feed());
    }
    append_str(&mut out, "\n");
    append_str(&mut out, "export ACCOUNT=");
    append_str(&mut out, target);
    append_str(&mut out, "\n");
    append_str(&mut out, "export ROLE=");
    append_str(&mut out, role);
    append_str(&mut out, "\n");
    append_str(&mut out, "export AWS_DEFAULT_REGION=");
    append_str(&mut out, region.as_str());
    append_str(&mut out, "\n");
    assert(out@ =~= augmented_text(filtered@, target@, role@));
    string_of(&out)
}

/// The key and value that a line of characters gives, if it is an export
/// line with an `=`.
pub fn parse_export_chars(line: &Vec<char>) -> (pair: Option<(Vec<char>, Vec<char>)>)
    ensures
        match pair {
            Some((key, value)) => parse_export(line@) == Some((key@, value@)),
            None => parse_export(line@) is None,
        },
{
    let t = trimmed(line);
    let keyword = chars_of("export ");
    if !starts_with(&t, &keyword) {
        return None;
    }
    let part = slice_of(&t, keyword.len(), t.len());
    assert(part@ =~= t@.skip(keyword.len() as int));
    let k = find_char(&part, '=');
    proof {
        lemma_index_of(part@, '=');
    }
    if k == 0 || k >= part.len() {
        return None;
    }
    let nul = find_char(&part, '\0');
    if nul < part.len() {
        return None;
    }
    let key = slice_of(&part, 0, k);
    assert(key@ =~= part@.take(k as int));
    let value = stripped_both_from(&part, k + 1, '"');
    Some((key, value))
}

/// The key and value of an export line, or nothing where the line is of
/// another shape.
pub fn parse_export_line(line: &str) -> (pair: Option<(String, String)>)
    ensures
        match pair {
            Some((key, value)) => parse_export(line@) == Some((key@, value@)),
            None => parse_export(line@) is None,
        },
{
    let chars = chars_of(line);
    match parse_export_chars(&chars) {
        Some((key, value)) => Some((string_of(&key), string_of(&value))),
        None => None,
    }
}

/// The views of a list of pairs of strings.
pub open spec fn pair_views(v: Seq<(String, String)>) -> Seq<(Seq<char>, Seq<char>)> {
    Seq::new(v.len(), |i: int| (v[i].0@, v[i].1@))
}

/// The value that a shell would hold for `key` after sourcing the pairs in
/// order: that of the last pair with this key.
pub open spec fn value_of(pairs: Seq<(Seq<char>, Seq<char>)>, key: Seq<char>) -> Option<
    Seq<char>,
>
    decreases pairs.len(),
{
    if pairs.len() == 0 {
        None
    } else if pairs.last().0 == key {
        Some(pairs.last().1)
    } else {
        value_of(pairs.drop_last(), key)
    }
}

/// Keys and values in the order in which they were exported. A later pair
/// shadows an earlier one with the same key.
pub struct CredentialSet {
    pub pairs: Vec<(String, String)>,
}

impl View for CredentialSet {
    type V = Seq<(Seq<char>, Seq<char>)>;

    /// The pairs, in the order in which they were exported.
    open spec fn view(&self) -> Seq<(Seq<char>, Seq<char>)> {
        pair_views(self.pairs@)
    }
}

impl CredentialSet {
    /// The set without any pair.
    pub fn new() -> (set: CredentialSet)
        ensures
            set@ == Seq::<(Seq<char>, Seq<char>)>::empty(),
    {
        let set = CredentialSet { pairs: Vec::new() };
        assert(set@ =~= Seq::<(Seq<char>, Seq<char>)>::empty());
        set
    }

    /// Number of pairs, shadowed ones included.
    pub fn len(&self) -> (n: usize)
        ensures
            n == self@.len(),
    {
        self.pairs.len()
    }

    /// Adds a pair after those already there.
    pub fn push(&mut self, key: String, value: String)
        ensures
            final(self)@ == old(self)@.push((key@, value@)),
    {
        self.pairs.push((key, value));
        assert(self@ =~= old(self)@.push((key@, value@)));
    }

    /// The value in force for `key`, if any pair has this key.
    pub fn get(&self, key: &str) -> (value: Option<String>)
        ensures
            match value {
                Some(v) => value_of(self@, key@) == Some(v@),
                None => value_of(self@, key@) is None,
            },
    {
        let mut i: usize = self.pairs.len();
        assert(self@.take(i as int) =~= self@);
        while i > 0
            invariant
                i <= self.pairs.len(),
                value_of(self@, key@) == value_of(self@.take(i as int), key@),
            decreases i,
        {
            let ghost upto = self@.take(i as int);
            assert(upto.last() == self@[i - 1]);
            assert(upto.drop_last() =~= self@.take(i - 1));
            if same_str(self.pairs[i - 1].0.as_str(), key) {
                return Some(self.pairs[i - 1].1.clone());
            }
            i -= 1;
        }
        None
    }
}

/// The apply pass on the lines of an artifact: every export line as a key
/// and a value, in order.
pub fn credentials_from_lines(ls: &Vec<Vec<char>>) -> (set: CredentialSet)
    ensures
        set@ == credentials_of(views_of(ls@)),
{
    let mut set = CredentialSet::new();
    let mut i: usize = 0;
    let ghost all = views_of(ls@);
    assert(all.take(0) =~= Seq::<Seq<char>>::empty());
    while i < ls.len()
        invariant
            i <= ls.len(),
            all == views_of(ls@),
            set@ == credentials_of(all.take(i as int)),
        decreases ls.len() - i,
    {
        proof {
            let next = all.take(i + 1);
            assert(next.drop_last() =~= all.take(i as int));
            assert(next.last() == ls@[i as int]@);
        }
        match parse_export_chars(&ls[i]) {
            Some((key, value)) => {
                set.push(string_of(&key), string_of(&value));
            },
            None => {},
        }
        i += 1;
    }
    assert(all.take(ls.len() as int) =~= all);
    set
}

/// The apply pass: the credentials that sourcing `content` would set.
pub fn parse_exports(content: &str) -> (set: CredentialSet)
    ensures
        set@ == credentials_of(lines(content@)),
{
    let chars = chars_of(content);
    let ls = split_lines(&chars);
    credentials_from_lines(&ls)
}

/// What the exporter hands back: the artifact as it is to be written, and
/// the credentials that it holds.
pub struct ExportOutcome {
    pub artifact: String,
    pub credentials: CredentialSet,
}

/// The three passes in turn on the content of a ready artifact.
pub fn export_session(content: &str, target: &str, role: &str) -> (outcome: ExportOutcome)
    ensures
        outcome.artifact@ == augmented_text(filtered_text(content@), target@, role@),
        outcome.credentials@ == credentials_of(lines(outcome.artifact@)),
{
    let filtered = filter_exports(content);
    let artifact = augment_exports(filtered.as_str(), target, role);
    let credentials = parse_exports(artifact.as_str());
    ExportOutcome { artifact, credentials }
}

/// Number of blanks at the start of `s`.
pub open spec fn leading_blanks(s: Seq<char>) -> int
    decreases s.len(),
{
    if s.len() > 0 && is_blank(s[0]) {
        1 + leading_blanks(s.drop_first())
    } else {
        0
    }
}

/// `leading_blanks` counts a run of blanks that ends at the first character
/// that is none, and `skip_blanks` leaves what follows the run.
pub proof fn lemma_leading_blanks(s: Seq<char>)
    ensures
        0 <= leading_blanks(s) <= s.len(),
        forall|j: int| 0 <= j < leading_blanks(s) ==> is_blank(s[j]),
        leading_blanks(s) < s.len() ==> !is_blank(s[leading_blanks(s)]),
        skip_blanks(s) == s.skip(leading_blanks(s)),
    decreases s.len(),
{
    if s.len() > 0 && is_blank(s[0]) {
        let t = s.drop_first();
        lemma_leading_blanks(t);
        assert forall|j: int| 0 <= j < leading_blanks(s) implies is_blank(s[j]) by {
            if j > 0 {
                assert(s[j] == t[j - 1]);
            }
        }
        assert(t.skip(leading_blanks(t)) =~= s.skip(leading_blanks(s)));
    } else {
        assert(s.skip(0) =~= s);
    }
}

/// An export line is still one without the carriage return at its end.
pub proof fn lemma_export_line_without_cr(line: Seq<char>)
    requires
        is_export_line(line),
    ensures
        is_export_line(strip_cr(line)),
        line.len() > 0,
{
    reveal_strlit("export ");
    lemma_leading_blanks(line);
    let k = leading_blanks(line);
    let word = export_keyword();
    let rest = line.skip(k);
    assert(rest.take(word.len() as int) == word);
    assert forall|j: int| 0 <= j < word.len() implies line[k + j] == word[j] by {
        assert(rest.take(word.len() as int)[j] == rest[j]);
    }
    if line.last() == '\r' {
        if line.len() == k + word.len() {
            assert(line[k + 6] == word[6]);
        }
        let cut = strip_cr(line);
        assert(cut =~= line.take(line.len() - 1));
        assert(cut[k] == word[0]);
        lemma_skip_blanks_is(cut, k);
        assert(cut.skip(k).take(word.len() as int) =~= word);
    }
}

/// After the filter pass the artifact holds as many lines as the artifact
/// before it had export lines, each of them an export line: the kept lines
/// themselves, but for a carriage return that a line before the last may
/// lose at its end.
pub proof fn law_filter_keeps_export_lines(content: Seq<char>)
    ensures
        lines(filtered_text(content)).len() == lines(content).filter(keeps_export()).len(),
        forall|i: int|
            0 <= i < lines(filtered_text(content)).len() ==> is_export_line(
                #[trigger] lines(filtered_text(content))[i],
            ),
        forall|i: int|
            0 <= i < lines(filtered_text(content)).len() ==> #[trigger] lines(
                filtered_text(content),
            )[i] == if i + 1 < lines(filtered_text(content)).len() {
                strip_cr(lines(content).filter(keeps_export())[i])
            } else {
                lines(content).filter(keeps_export())[i]
            },
{
    let kept = lines(content).filter(keeps_export());
    let out = lines(filtered_text(content));
    lemma_lines_single(content);
    lemma_filter_single(lines(content), keeps_export());
    assert forall|i: int| 0 <= i < kept.len() implies is_export_line(#[trigger] kept[i]) by {
        lines(content).lemma_filter_pred(keeps_export(), i);
    }
    if kept.len() == 0 {
        assert(filtered_text(content) =~= Seq::<char>::empty());
    } else {
        lemma_export_line_without_cr(kept.last());
        lemma_lines_of_joined(kept);
        assert forall|i: int| 0 <= i < out.len() implies is_export_line(#[trigger] out[i]) by {
            lemma_export_line_without_cr(kept[i]);
        }
    }
}

/// An export statement for a name and a value.
pub open spec fn export_line(name: Seq<char>, value: Seq<char>) -> Seq<char> {
    export_keyword() + name + seq!['='] + value
}

/// Whether a value comes back from an export statement as it went in: it
/// is one line, does not end in white space, and has no double quote at
/// either end.
pub open spec fn is_plain_value(value: Seq<char>) -> bool {
    &&& is_single_line(value)
    &&& forall|j: int| 0 <= j < value.len() ==> value[j] != '\0'
    &&& value.len() > 0 ==> !is_white_space(value.last()) && value[0] != '"' && value.last()
        != '"'
}

/// Whether a name can stand before the `=` of an export statement: it is
/// not empty, is one line, and holds no `=` and no NUL character.
pub open spec fn is_plain_name(name: Seq<char>) -> bool {
    &&& name.len() > 0
    &&& forall|j: int|
        0 <= j < name.len() ==> name[j] != '=' && name[j] != '\n' && name[j] != '\0'
}

/// The three derived export statements for a target and a role.
pub open spec fn derived_statements(target: Seq<char>, role: Seq<char>) -> Seq<Seq<char>> {
    seq![
        export_line("ACCOUNT"@, target),
        export_line("ROLE"@, role),
        export_line("AWS_DEFAULT_REGION"@, region_of(target)),
    ]
}

/// An export statement for a plain name and a plain value is one line,
/// keeps its last character when read back, and gives the name and the
/// value.
pub proof fn lemma_export_line_parses(name: Seq<char>, value: Seq<char>)
    requires
        is_plain_name(name),
        is_plain_value(value),
    ensures
        is_single_line(export_line(name, value)),
        strip_cr(export_line(name, value)) == export_line(name, value),
        parse_export(export_line(name, value)) == Some((name, value)),
{
    reveal_strlit("export ");
    let word = export_keyword();
    let line = export_line(name, value);
    let part = name + seq!['='] + value;
    assert(line =~= word + part);
    assert(line.len() == 7 + name.len() + 1 + value.len());
    assert forall|j: int| 0 <= j < line.len() implies line[j] != '\n' by {
        if j < 7 {
            assert(line[j] == word[j]);
        } else if j < 7 + name.len() {
            assert(line[j] == name[j - 7]);
        } else if j == 7 + name.len() {
        } else {
            assert(line[j] == value[j - 8 - name.len()]);
        }
    }
    assert(line[0] == word[0]);
    if value.len() > 0 {
        assert(line.last() == value.last());
    } else {
        assert(line.last() == '=');
    }
    lemma_trim_start_is(line, 0);
    assert(line.skip(0) =~= line);
    lemma_trim_end_is(line, line.len() as int);
    assert(line.take(line.len() as int) =~= line);
    assert(trim(line) == line);
    assert(line.take(7) =~= word);
    assert(line.skip(7) =~= part);
    let k = name.len() as int;
    assert(part[k] == '=');
    assert forall|j: int| 0 <= j < k implies part[j] != '=' by {
        assert(part[j] == name[j]);
    }
    lemma_index_of_is(part, '=', k);
    assert forall|j: int| 0 <= j < part.len() implies part[j] != '\0' by {
        if j < k {
            assert(part[j] == name[j]);
        } else if j > k {
            assert(part[j] == value[j - k - 1]);
        }
    }
    lemma_index_of_is(part, '\0', part.len() as int);
    assert(part.take(k) =~= name);
    assert(part.skip(k + 1) =~= value);
    lemma_strip_leading_is(value, '"', 0);
    assert(value.skip(0) =~= value);
    lemma_strip_trailing_is(value, '"', value.len() as int);
    assert(value.take(value.len() as int) =~= value);
}

/// The credentials of lines with one more line after them.
pub proof fn lemma_credentials_push(ls: Seq<Seq<char>>, line: Seq<char>)
    ensures
        credentials_of(ls.push(line)) == match parse_export(line) {
            Some(pair) => credentials_of(ls).push(pair),
            None => credentials_of(ls),
        },
{
    assert(ls.push(line).drop_last() =~= ls);
}

/// The region of a target is a plain value.
pub proof fn lemma_region_is_plain(target: Seq<char>)
    ensures
        is_plain_value(region_of(target)),
{
    reveal_strlit("us-east-2");
    reveal_strlit("eu-west-1");
}

/// The derived lines of an artifact are a line feed and the three derived
/// statements, each ended by a line feed.
pub proof fn lemma_derived_lines(target: Seq<char>, role: Seq<char>)
    ensures
        derived_lines(target, role) == line_feed() + join_ended(
            derived_statements(target, role),
            line_feed(),
        ),
{
    reveal_strlit("export ");
    reveal_strlit("ACCOUNT");
    reveal_strlit("ROLE");
    reveal_strlit("AWS_DEFAULT_REGION");
    reveal_strlit("export ACCOUNT=");
    reveal_strlit("export ROLE=");
    reveal_strlit("export AWS_DEFAULT_REGION=");
    let feed = line_feed();
    let a = export_line("ACCOUNT"@, target);
    let b = export_line("ROLE"@, role);
    let c = export_line("AWS_DEFAULT_REGION"@, region_of(target));
    assert("export ACCOUNT="@ =~= export_keyword() + "ACCOUNT"@ + seq!['=']);
    assert("export ROLE="@ =~= export_keyword() + "ROLE"@ + seq!['=']);
    assert("export AWS_DEFAULT_REGION="@ =~= export_keyword() + "AWS_DEFAULT_REGION"@ + seq![
        '=',
    ]);
    assert(a =~= "export ACCOUNT="@ + target);
    assert(b =~= "export ROLE="@ + role);
    assert(c =~= "export AWS_DEFAULT_REGION="@ + region_of(target));
    let none = Seq::<Seq<char>>::empty();
    assert(join_ended(none, feed) =~= Seq::<char>::empty());
    lemma_join_ended_push(none, a, feed);
    lemma_join_ended_push(none.push(a), b, feed);
    lemma_join_ended_push(none.push(a).push(b), c, feed);
    assert(none.push(a).push(b).push(c) =~= derived_statements(target, role));
    assert(derived_lines(target, role) =~= feed + (a + feed + b + feed + c + feed));
    assert(join_ended(derived_statements(target, role), feed) =~= a + feed + b + feed + c + feed);
}

/// The lines of an augmented artifact: those of the filtered artifact with
/// its last line closed, then the three derived statements.
pub proof fn lemma_lines_of_augmented(filtered: Seq<char>, target: Seq<char>, role: Seq<char>)
    requires
        is_plain_value(target),
        is_plain_value(role),
    ensures
        lines(augmented_text(filtered, target, role)) == lines(filtered + line_feed())
            + derived_statements(target, role),
{
    reveal_strlit("ACCOUNT");
    reveal_strlit("ROLE");
    reveal_strlit("AWS_DEFAULT_REGION");
    let feed = line_feed();
    let derived = derived_statements(target, role);
    lemma_derived_lines(target, role);
    lemma_region_is_plain(target);
    lemma_export_line_parses("ACCOUNT"@, target);
    lemma_export_line_parses("ROLE"@, role);
    lemma_export_line_parses("AWS_DEFAULT_REGION"@, region_of(target));
    let closed = filtered + feed;
    assert(closed.last() == '\n');
    assert(augmented_text(filtered, target, role) =~= closed + join_ended(derived, feed));
    lemma_lines_concat(closed, join_ended(derived, feed));
    lemma_lines_of_ended(derived);
    assert(strip_cr_each(derived) =~= derived);
}

/// The credentials of an augmented artifact: those of the filtered
/// artifact, then account, role and region.
pub proof fn lemma_credentials_of_augmented(
    filtered: Seq<char>,
    target: Seq<char>,
    role: Seq<char>,
)
    requires
        is_plain_value(target),
        is_plain_value(role),
    ensures
        credentials_of(lines(augmented_text(filtered, target, role))) == credentials_of(
            lines(filtered + line_feed()),
        ).push(("ACCOUNT"@, target)).push(("ROLE"@, role)).push(
            ("AWS_DEFAULT_REGION"@, region_of(target)),
        ),
{
    reveal_strlit("ACCOUNT");
    reveal_strlit("ROLE");
    reveal_strlit("AWS_DEFAULT_REGION");
    let before = lines(filtered + line_feed());
    let a = export_line("ACCOUNT"@, target);
    let b = export_line("ROLE"@, role);
    let c = export_line("AWS_DEFAULT_REGION"@, region_of(target));
    lemma_lines_of_augmented(filtered, target, role);
    lemma_region_is_plain(target);
    lemma_export_line_parses("ACCOUNT"@, target);
    lemma_export_line_parses("ROLE"@, role);
    lemma_export_line_parses("AWS_DEFAULT_REGION"@, region_of(target));
    assert(before + derived_statements(target, role) =~= before.push(a).push(b).push(c));
    lemma_credentials_push(before, a);
    lemma_credentials_push(before.push(a), b);
    lemma_credentials_push(before.push(a).push(b), c);
}

/// After an export for a plain target and role, the credentials hold the
/// target as `ACCOUNT`, the role as `ROLE` and the target's region as
/// `AWS_DEFAULT_REGION`, whatever the artifact held before; and every other
/// key has the value that the artifact's own export lines give it.
pub proof fn law_export_sets_derived(content: Seq<char>, target: Seq<char>, role: Seq<char>)
    requires
        is_plain_value(target),
        is_plain_value(role),
    ensures
        ({
            let artifact = augmented_text(filtered_text(content), target, role);
            let set = credentials_of(lines(artifact));
            &&& value_of(set, "ACCOUNT"@) == Some(target)
            &&& value_of(set, "ROLE"@) == Some(role)
            &&& value_of(set, "AWS_DEFAULT_REGION"@) == Some(region_of(target))
            &&& forall|key: Seq<char>|
                key != "ACCOUNT"@ && key != "ROLE"@ && key != "AWS_DEFAULT_REGION"@ ==> #[trigger] value_of(
                    set,
                    key,
                ) == value_of(credentials_of(lines(filtered_text(content) + line_feed())), key)
        }),
{
    reveal_strlit("ACCOUNT");
    reveal_strlit("ROLE");
    reveal_strlit("AWS_DEFAULT_REGION");
    let filtered = filtered_text(content);
    let own = credentials_of(lines(filtered + line_feed()));
    let p1 = own.push(("ACCOUNT"@, target));
    let p2 = p1.push(("ROLE"@, role));
    let p3 = p2.push(("AWS_DEFAULT_REGION"@, region_of(target)));
    lemma_credentials_of_augmented(filtered, target, role);
    assert("ACCOUNT"@.len() == 7);
    assert("ROLE"@.len() == 4);
    assert("AWS_DEFAULT_REGION"@.len() == 18);
    assert(p3.drop_last() =~= p2);
    assert(p2.drop_last() =~= p1);
    assert(p1.drop_last() =~= own);
    assert(value_of(p3, "ACCOUNT"@) == value_of(p2, "ACCOUNT"@));
    assert(value_of(p2, "ACCOUNT"@) == value_of(p1, "ACCOUNT"@));
    assert(value_of(p3, "ROLE"@) == value_of(p2, "ROLE"@));
    assert forall|key: Seq<char>|
        key != "ACCOUNT"@ && key != "ROLE"@ && key != "AWS_DEFAULT_REGION"@ implies #[trigger] value_of(
        p3,
        key,
    ) == value_of(own, key) by {
        assert(value_of(p3, key) == value_of(p2, key));
        assert(value_of(p2, key) == value_of(p1, key));
        assert(value_of(p1, key) == value_of(own, key));
    }
}

/// An export statement follows the export-line grammar.
pub proof fn lemma_export_line_is_export(name: Seq<char>, value: Seq<char>)
    ensures
        is_export_line(export_line(name, value)),
{
    reveal_strlit("export ");
    let line = export_line(name, value);
    let word = export_keyword();
    assert(line =~= word + (name + seq!['='] + value));
    assert(line[0] == word[0]);
    lemma_skip_blanks_is(line, 0);
    assert(line.skip(0) =~= line);
    assert(line.take(word.len() as int) =~= word);
}

/// After an export for a plain target and role, the artifact holds nothing
/// but export lines: every line of it follows the export-line grammar. The
/// one exception is an artifact that had no export line before; it opens
/// with an empty line.
pub proof fn law_artifact_holds_export_lines(
    content: Seq<char>,
    target: Seq<char>,
    role: Seq<char>,
)
    requires
        is_plain_value(target),
        is_plain_value(role),
    ensures
        forall|i: int|
            0 <= i < lines(augmented_text(filtered_text(content), target, role)).len()
                ==> is_export_line(
                #[trigger] lines(augmented_text(filtered_text(content), target, role))[i],
            ) || (i == 0 && lines(content).filter(keeps_export()).len() == 0 && lines(
                augmented_text(filtered_text(content), target, role),
            )[i].len() == 0),
{
    let kept = lines(content).filter(keeps_export());
    let filtered = filtered_text(content);
    let feed = line_feed();
    let derived = derived_statements(target, role);
    let own = lines(filtered + feed);
    let all = lines(augmented_text(filtered, target, role));
    lemma_lines_of_augmented(filtered, target, role);
    lemma_export_line_is_export("ACCOUNT"@, target);
    lemma_export_line_is_export("ROLE"@, role);
    lemma_export_line_is_export("AWS_DEFAULT_REGION"@, region_of(target));
    lemma_lines_single(content);
    lemma_filter_single(lines(content), keeps_export());
    if kept.len() == 0 {
        assert(filtered =~= Seq::<char>::empty());
        assert(filtered + feed =~= Seq::<char>::empty() + feed + Seq::<char>::empty());
        crate::text::lemma_lines_first(Seq::<char>::empty(), Seq::<char>::empty());
        assert(own =~= seq![Seq::<char>::empty()]);
    } else {
        lemma_join_then_sep(kept, feed);
        lemma_lines_of_ended(kept);
        assert forall|i: int| 0 <= i < own.len() implies is_export_line(#[trigger] own[i]) by {
            lines(content).lemma_filter_pred(keeps_export(), i);
            lemma_export_line_without_cr(kept[i]);
        }
    }
    assert forall|i: int| 0 <= i < all.len() implies is_export_line(#[trigger] all[i]) || (i == 0
        && kept.len() == 0 && all[i].len() == 0) by {
        if i < own.len() {
            assert(all[i] == own[i]);
        } else {
            assert(all[i] == derived[i - own.len()]);
        }
    }
}

/// Whether a key and a value can be set in an environment: the key is not
/// empty and holds no `=`, and neither holds a NUL character.
pub open spec fn can_be_set(pair: (Seq<char>, Seq<char>)) -> bool {
    &&& pair.0.len() > 0
    &&& forall|j: int| 0 <= j < pair.0.len() ==> pair.0[j] != '=' && pair.0[j] != '\0'
    &&& forall|j: int| 0 <= j < pair.1.len() ==> pair.1[j] != '\0'
}

/// Whether `s` holds no `z`.
pub open spec fn holds_no(s: Seq<char>, z: char) -> bool {
    forall|j: int| 0 <= j < s.len() ==> s[j] != z
}

/// What is left of a text without `z` once a run of `c` is taken from its
/// start holds no `z`.
pub proof fn lemma_strip_leading_holds_no(s: Seq<char>, c: char, z: char)
    requires
        holds_no(s, z),
    ensures
        holds_no(crate::text::strip_leading(s, c), z),
    decreases s.len(),
{
    if s.len() > 0 && s[0] == c {
        let t = s.drop_first();
        assert forall|j: int| 0 <= j < t.len() implies t[j] != z by {
            assert(t[j] == s[j + 1]);
        }
        lemma_strip_leading_holds_no(t, c, z);
    }
}

/// What is left of a text without `z` once a run of `c` is taken from its
/// end holds no `z`.
pub proof fn lemma_strip_trailing_holds_no(s: Seq<char>, c: char, z: char)
    requires
        holds_no(s, z),
    ensures
        holds_no(crate::text::strip_trailing(s, c), z),
    decreases s.len(),
{
    if s.len() > 0 && s.last() == c {
        let t = s.drop_last();
        assert forall|j: int| 0 <= j < t.len() implies t[j] != z by {
            assert(t[j] == s[j]);
        }
        lemma_strip_trailing_holds_no(t, c, z);
    }
}

/// The key and value that a line gives can be set in an environment.
pub proof fn lemma_parsed_can_be_set(line: Seq<char>)
    ensures
        parse_export(line) matches Some(pair) ==> can_be_set(pair),
{
    if parse_export(line) is Some {
        let t = trim(line);
        let part = t.skip(export_keyword().len() as int);
        let k = index_of(part, '=');
        lemma_index_of(part, '=');
        lemma_index_of(part, '\0');
        let key = part.take(k);
        let tail = part.skip(k + 1);
        assert forall|j: int| 0 <= j < key.len() implies key[j] != '=' && key[j] != '\0' by {
            assert(key[j] == part[j]);
        }
        assert forall|j: int| 0 <= j < tail.len() implies tail[j] != '\0' by {
            assert(tail[j] == part[j + k + 1]);
        }
        lemma_strip_leading_holds_no(tail, '"', '\0');
        lemma_strip_trailing_holds_no(crate::text::strip_leading(tail, '"'), '"', '\0');
    }
}

/// Every pair of the credentials that lines give can be set in an
/// environment as it is: no key is empty or holds `=`, and no key or value
/// holds a NUL character.
pub proof fn law_credentials_can_be_set(ls: Seq<Seq<char>>)
    ensures
        forall|i: int|
            0 <= i < credentials_of(ls).len() ==> can_be_set(#[trigger] credentials_of(ls)[i]),
    decreases ls.len(),
{
    if ls.len() > 0 {
        law_credentials_can_be_set(ls.drop_last());
        lemma_parsed_can_be_set(ls.last());
        let before = credentials_of(ls.drop_last());
        let all = credentials_of(ls);
        assert forall|i: int| 0 <= i < all.len() implies can_be_set(#[trigger] all[i]) by {
            if i < before.len() {
                assert(all[i] == before[i]);
            }
        }
    }
}

} // verus!
