//! Agent front matter and the user's global agents.
use vstd::prelude::*;

use super::{normalized_text, opt_view, AppState, GlobalAgentRecord, GlobalAgentsState, ScanItem,
    ScanStateRow};
use crate::error::{error_prefix, ErrorKind, TupiError};
use crate::order::{lemma_sort_by_key_map, sort_by_key, sort_with_keys, SortKey};
use crate::text::{chars_end_with, chars_of, ends_with, join_lines, joined, joined3, lemma_lines_of_join,
    lines, lines_of, lower, lower_chars, owned, plain_line, string_of_range, strip_bom, strip_bom_chars,
    text_eq, trim, trim_end, trim_start, trimmed};
use crate::trust::{status_of_label, TrustStatus};
use vstd::utf8::{decode_utf8, valid_utf8};

verus! {

// ---------------------------------------------------------------------------
// Front matter
// ---------------------------------------------------------------------------

/// What a key of a YAML document holds.
#[derive(Debug)]
pub enum YamlField {
    /// The document is not valid YAML; the parser's message.
    Unparsable(String),
    /// The document has no such key.
    Absent,
    /// The key holds something other than a string.
    NotText,
    /// The key holds this string.
    Text(String),
}

/// What a key of a YAML document holds, as texts.
pub enum YamlFieldView {
    Unparsable(Seq<char>),
    Absent,
    NotText,
    Text(Seq<char>),
}

impl View for YamlField {
    type V = YamlFieldView;

    open spec fn view(&self) -> YamlFieldView {
        match self {
            YamlField::Unparsable(m) => YamlFieldView::Unparsable(m@),
            YamlField::Absent => YamlFieldView::Absent,
            YamlField::NotText => YamlFieldView::NotText,
            YamlField::Text(t) => YamlFieldView::Text(t@),
        }
    }
}

/// What `serde_yaml` reads from a YAML document under a key.
pub uninterp spec fn yaml_field_of(document: Seq<char>, key: Seq<char>) -> YamlFieldView;

/// Parses `document` with `serde_yaml::from_str` into a `serde_yaml::Value`,
/// looks `key` up with `Value::get` and reads what it holds with
/// `Value::as_str`. The contract states only that the outcome is a function
/// of the document and the key, named `yaml_field_of`.
#[verifier::external_body]
fn yaml_field(document: &str, key: &str) -> (r: YamlField)
    ensures
        r@ == yaml_field_of(document@, key@),
{
    match serde_yaml::from_str::<serde_yaml::Value>(document) {
        Err(e) => YamlField::Unparsable(e.to_string()),
        Ok(value) => match value.get(key) {
            None => YamlField::Absent,
            Some(field) => match field.as_str() {
                Some(text) => YamlField::Text(text.to_string()),
                None => YamlField::NotText,
            },
        },
    }
}

/// A line that closes a front-matter block.
pub open spec fn is_delimiter(line: Seq<char>) -> bool {
    trim(line) == "---"@ || trim(line) == "..."@
}

/// `k` is the first line after the opening one that closes the block.
pub open spec fn closes_at(ls: Seq<Seq<char>>, k: int) -> bool {
    &&& 1 <= k < ls.len()
    &&& is_delimiter(ls[k])
    &&& forall|j: int| 1 <= j < k ==> !is_delimiter(#[trigger] ls[j])
}

/// The description that an agent file's front matter gives.
///
/// A file whose first line (after byte-order marks) is not `---` has no
/// front matter. Otherwise the block runs to the first line that is `---`
/// or `...`; a block that is never closed is an error, an empty block has no
/// description, and otherwise the block is read as YAML and its
/// `description` must be a string, which is trimmed and dropped when blank.
pub open spec fn frontmatter_description(contents: Seq<char>) -> Result<
    Option<Seq<char>>,
    (ErrorKind, Seq<char>),
> {
    let ls = lines(strip_bom(contents));
    if ls.len() == 0 || trim(ls[0]) != "---"@ {
        Ok(None)
    } else if !(exists|k: int| closes_at(ls, k)) {
        Err((ErrorKind::AgentValidation, "agent frontmatter is missing a closing delimiter"@))
    } else {
        let k = choose|k: int| closes_at(ls, k);
        if k == 1 {
            Ok(None)
        } else {
            match yaml_field_of(join_lines(ls.subrange(1, k)), "description"@) {
                YamlFieldView::Unparsable(m) => Err(
                    (ErrorKind::AgentValidation, "agent frontmatter could not be parsed: "@ + m),
                ),
                YamlFieldView::Absent => Ok(None),
                YamlFieldView::NotText => Err(
                    (ErrorKind::AgentValidation, "agent frontmatter description must be a string"@),
                ),
                YamlFieldView::Text(t) => Ok(normalized_text(Some(t))),
            }
        }
    }
}

/// The description of an agent file is read from its whole front-matter
/// block: for a file made of a `---` line, the lines of the block (none of
/// them a delimiter), a closing `---` line and any further lines, the YAML
/// document read is every line of the block joined with line feeds, so a
/// `description` key on any line of the block is found.
pub proof fn lemma_description_reads_whole_block(block: Seq<Seq<char>>, after: Seq<Seq<char>>)
    requires
        block.len() >= 1,
        forall|i: int| 0 <= i < block.len() ==> plain_line(#[trigger] block[i]) && !is_delimiter(block[i]),
        forall|i: int| 0 <= i < after.len() ==> plain_line(#[trigger] after[i]),
    ensures
        yaml_field_of(join_lines(block), "description"@) matches YamlFieldView::Text(t)
            ==> frontmatter_description(join_lines(seq!["---"@] + block + seq!["---"@] + after))
            == Ok::<Option<Seq<char>>, (ErrorKind, Seq<char>)>(normalized_text(Some(t))),
        yaml_field_of(join_lines(block), "description"@) is Absent ==> frontmatter_description(
            join_lines(seq!["---"@] + block + seq!["---"@] + after),
        ) == Ok::<Option<Seq<char>>, (ErrorKind, Seq<char>)>(None),
{
    reveal_strlit("---");
    let d = "---"@;
    assert(d.len() == 3 && d[0] == '-' && d[1] == '-' && d[2] == '-');
    assert(trim_start(d) == d);
    assert(trim_end(d) == d);
    assert(trim(d) == d);
    let all = seq![d] + block + seq![d] + after;
    let k: int = block.len() as int + 1;
    assert forall|i: int| 0 <= i < all.len() implies plain_line(#[trigger] all[i]) by {
        if 1 <= i < k {
            assert(all[i] == block[i - 1]);
        } else if i > k {
            assert(all[i] == after[i - k - 1]);
        }
    }
    let contents = join_lines(all);
    lemma_lines_of_join(all);
    assert(contents[0] == '-');
    assert(strip_bom(contents) == contents);
    let ls = lines(contents);
    assert(all[k] == d);
    if after.len() == 0 {
        assert(all.last() == d);
    }
    assert(ls.len() > k);
    assert(ls[0] == d);
    assert(ls[k] == d);
    assert(is_delimiter(ls[k]));
    assert forall|j: int| 1 <= j < k implies !is_delimiter(#[trigger] ls[j]) by {
        assert(ls[j] == all[j]);
        assert(all[j] == block[j - 1]);
    }
    assert(closes_at(ls, k));
    let c = choose|c: int| closes_at(ls, c);
    if c < k {
        assert(ls[c] == block[c - 1]);
    }
    if c > k {
        assert(!is_delimiter(ls[k]));
    }
    assert(c == k);
    assert(ls.subrange(1, k) =~= block) by {
        assert forall|j: int| 0 <= j < block.len() implies ls.subrange(1, k)[j] == block[j] by {
            assert(ls[j + 1] == all[j + 1]);
        }
    }
}

/// Whether the result of a description extraction is the one specified.
pub open spec fn describes(
    r: Result<Option<String>, TupiError>,
    expected: Result<Option<Seq<char>>, (ErrorKind, Seq<char>)>,
) -> bool {
    match r {
        Ok(d) => expected == Ok::<Option<Seq<char>>, (ErrorKind, Seq<char>)>(opt_view(d)),
        Err(e) => expected == Err::<Option<Seq<char>>, (ErrorKind, Seq<char>)>(e@),
    }
}

/// Whether a line closes a front-matter block.
fn line_is_delimiter(line: &String) -> (b: bool)
    ensures
        b == is_delimiter(line@),
{
    let t = trimmed(line.as_str());
    text_eq(t.as_str(), "---") || text_eq(t.as_str(), "...")
}

/// The lines `ls[from..to]` joined with line feeds.
fn join_range(ls: &Vec<String>, from: usize, to: usize) -> (out: String)
    requires
        from < to <= ls.len(),
    ensures
        out@ == join_lines(ls@.map_values(|l: String| l@).subrange(from as int, to as int)),
{
    let ghost views = ls@.map_values(|l: String| l@);
    let mut out = ls[from].clone();
    let mut i = from + 1;
    proof {
        assert(views.subrange(from as int, from + 1).len() == 1);
        assert(views.subrange(from as int, from + 1)[0] == views[from as int]);
    }
    while i < to
        invariant
            from < i <= to <= ls.len(),
            views == ls@.map_values(|l: String| l@),
            out@ == join_lines(views.subrange(from as int, i as int)),
        decreases to - i,
    {
        out.append("\n");
        out.append(ls[i].as_str());
        proof {
            let t = views.subrange(from as int, i + 1);
            assert(t.drop_last() =~= views.subrange(from as int, i as int));
            assert(t.last() == views[i as int]);
            reveal_strlit("\n");
            assert("\n"@ =~= seq!['\n']);
        }
        i = i + 1;
    }
    out
}

impl AppState {
    /// The description that an agent file's front matter gives; see
    /// `frontmatter_description`.
    pub fn extract_frontmatter_description(contents: &str) -> (r: Result<
        Option<String>,
        TupiError,
    >)
        ensures
            describes(r, frontmatter_description(contents@)),
    {
        let chars = chars_of(contents);
        let start = strip_bom_chars(&chars);
        let ls = lines_of(&chars, start);
        let ghost views = ls@.map_values(|l: String| l@);
        proof {
            assert(chars@.subrange(start as int, chars@.len() as int) == strip_bom(contents@));
        }
        if ls.len() == 0 {
            return Ok(None);
        }
        let first = trimmed(ls[0].as_str());
        if !text_eq(first.as_str(), "---") {
            return Ok(None);
        }
        let mut k: usize = 1;
        while k < ls.len() && !line_is_delimiter(&ls[k])
            invariant
                1 <= k <= ls.len(),
                views == ls@.map_values(|l: String| l@),
                forall|j: int| 1 <= j < k ==> !is_delimiter(#[trigger] views[j]),
            decreases ls.len() - k,
        {
            k = k + 1;
        }
        if k == ls.len() {
            proof {
                assert forall|j: int| !closes_at(views, j) by {
                    if 1 <= j < views.len() && is_delimiter(views[j]) {
                        assert(!is_delimiter(views[j]));
                    }
                }
            }
            return Err(
                TupiError::AgentValidation(owned("agent frontmatter is missing a closing delimiter")),
            );
        }
        proof {
            assert(closes_at(views, k as int));
            let c = choose|c: int| closes_at(views, c);
            assert(closes_at(views, c));
            if c < k {
                assert(!is_delimiter(views[c]));
            }
            if c > k {
                assert(!is_delimiter(views[k as int]));
            }
            assert(c == k);
        }
        if k == 1 {
            return Ok(None);
        }
        let document = join_range(&ls, 1, k);
        match yaml_field(document.as_str(), "description") {
            YamlField::Unparsable(m) => Err(
                TupiError::AgentValidation(joined("agent frontmatter could not be parsed: ", m.as_str())),
            ),
            YamlField::Absent => Ok(None),
            YamlField::NotText => Err(
                TupiError::AgentValidation(owned("agent frontmatter description must be a string")),
            ),
            YamlField::Text(t) => Ok(Self::normalize_optional_text(Some(t))),
        }
    }
}

// ---------------------------------------------------------------------------
// Global agents
// ---------------------------------------------------------------------------

/// A regular file met while walking the global agent folder: its path, its
/// name where the name is valid Unicode, and its bytes, or the error met
/// reading them. The bytes are looked at only for files that
/// `AppState::global_agent_name` names as agents.
#[derive(Debug)]
pub struct GlobalAgentFile {
    pub path: String,
    pub file_name: Option<String>,
    pub contents: Result<Vec<u8>, String>,
}

/// A global agent, as texts.
pub struct GlobalAgentView {
    pub name: Seq<char>,
    pub file_location: Seq<char>,
    pub description: Option<Seq<char>>,
    pub trust_status: TrustStatus,
}

impl View for GlobalAgentRecord {
    type V = GlobalAgentView;

    open spec fn view(&self) -> GlobalAgentView {
        GlobalAgentView {
            name: self.name@,
            file_location: self.file_location@,
            description: opt_view(self.description),
            trust_status: self.trust_status,
        }
    }
}

/// The ending that marks an agent file.
pub open spec fn agent_suffix() -> Seq<char> {
    ".agent.md"@
}

/// The agent name that a file name gives: files whose name does not end in
/// `.agent.md` (in any case) are not agents; an agent's name is what comes
/// before `.agent.md` (in this case), trimmed, and must not be empty.
pub open spec fn global_agent_name_of(file_name: Option<Seq<char>>, path: Seq<char>) -> Result<
    Option<Seq<char>>,
    (ErrorKind, Seq<char>),
> {
    match file_name {
        None => Err((ErrorKind::AgentValidation, "agent file "@ + path + " must have a valid filename"@)),
        Some(f) => if !ends_with(lower(f), agent_suffix()) {
            Ok(None)
        } else if !ends_with(f, agent_suffix()) || trim(
            f.subrange(0, f.len() - agent_suffix().len()),
        ).len() == 0 {
            Err(
                (
                    ErrorKind::AgentValidation,
                    "agent file "@ + path + " must end with a non-empty .agent.md name"@,
                ),
            )
        } else {
            Ok(Some(trim(f.subrange(0, f.len() - agent_suffix().len()))))
        },
    }
}

/// The message of `std::string::FromUtf8Error` for bytes that are not UTF-8.
pub uninterp spec fn utf8_error_text(bytes: Seq<u8>) -> Seq<char>;

/// `String::from_utf8`: the text that the bytes encode, or the message of
/// the error where they are not UTF-8. The contract claims that the text is
/// the decoding of the bytes and that decoding fails exactly on bytes that
/// are not valid UTF-8, as the documentation of `String::from_utf8` says.
#[verifier::external_body]
pub(crate) fn decode_utf8_text(bytes: &Vec<u8>) -> (r: Result<String, String>)
    ensures
        match r {
            Ok(s) => valid_utf8(bytes@) && s@ == decode_utf8(bytes@),
            Err(m) => !valid_utf8(bytes@) && m@ == utf8_error_text(bytes@),
        },
{
    match String::from_utf8(bytes.clone()) {
        Ok(s) => Ok(s),
        Err(e) => Err(e.to_string()),
    }
}

/// The view of a read outcome.
pub open spec fn read_view<T: View>(r: Result<T, String>) -> Result<T::V, Seq<char>> {
    match r {
        Ok(v) => Ok(v@),
        Err(m) => Err(m@),
    }
}

/// The record of a global agent file: read failures and undecodable bytes
/// are errors; the description comes from the front matter; the agent is
/// trusted exactly when its bytes are those of a trusted agent file.
pub open spec fn global_agent_outcome(
    name: Seq<char>,
    path: Seq<char>,
    contents: Result<Seq<u8>, Seq<char>>,
    trusted: Seq<Seq<u8>>,
) -> Result<GlobalAgentView, (ErrorKind, Seq<char>)> {
    match contents {
        Err(m) => Err((ErrorKind::AgentRead, path + " ("@ + m + ")"@)),
        Ok(b) => if !valid_utf8(b) {
            Err((ErrorKind::AgentRead, path + " is not valid UTF-8 ("@ + utf8_error_text(b) + ")"@))
        } else {
            match frontmatter_description(decode_utf8(b)) {
                Err(e) => Err(e),
                Ok(d) => Ok(
                    GlobalAgentView {
                        name,
                        file_location: path,
                        description: d,
                        trust_status: if trusted.contains(b) {
                            TrustStatus::Trusted
                        } else {
                            TrustStatus::Untrusted
                        },
                    },
                ),
            }
        },
    }
}

/// The agents found in a walk, in walk order; the first error met ends it.
pub open spec fn scanned_global_agents(
    items: Seq<ScanItem<GlobalAgentFile>>,
    trusted: Seq<Seq<u8>>,
) -> Result<Seq<GlobalAgentView>, (ErrorKind, Seq<char>)>
    decreases items.len(),
{
    if items.len() == 0 {
        Ok(Seq::empty())
    } else {
        match scanned_global_agents(items.drop_last(), trusted) {
            Err(e) => Err(e),
            Ok(rs) => match items.last() {
                ScanItem::Failed(e) => Err(e@),
                ScanItem::Found(f) => match global_agent_name_of(opt_view(f.file_name), f.path@) {
                    Err(e) => Err(e),
                    Ok(None) => Ok(rs),
                    Ok(Some(n)) => match global_agent_outcome(
                        n,
                        f.path@,
                        read_view(f.contents),
                        trusted,
                    ) {
                        Err(e) => Err(e),
                        Ok(r) => Ok(rs.push(r)),
                    },
                },
            },
        }
    }
}

/// What one file met in the walk adds to the global agents: nothing, an
/// agent, or an error.
pub open spec fn global_agent_step(trusted: Seq<Seq<u8>>) -> spec_fn(GlobalAgentFile) -> super::Outcome<
    Option<GlobalAgentView>,
> {
    |f: GlobalAgentFile|
        match global_agent_name_of(opt_view(f.file_name), f.path@) {
            Err(e) => Err(e),
            Ok(None) => Ok(None),
            Ok(Some(n)) => match global_agent_outcome(n, f.path@, read_view(f.contents), trusted) {
                Err(e) => Err(e),
                Ok(r) => Ok(Some(r)),
            },
        }
}

proof fn lemma_scanned_is_fold(items: Seq<ScanItem<GlobalAgentFile>>, trusted: Seq<Seq<u8>>)
    ensures
        scanned_global_agents(items, trusted) == super::fold_scan(items, global_agent_step(trusted)),
    decreases items.len(),
{
    if items.len() > 0 {
        lemma_scanned_is_fold(items.drop_last(), trusted);
    }
}

/// Whether a walk entry is a global agent file: a file whose name ends in
/// `.agent.md`, in any case.
pub open spec fn global_agent_file() -> spec_fn(ScanItem<GlobalAgentFile>) -> bool {
    |it: ScanItem<GlobalAgentFile>|
        it matches ScanItem::Found(f) && (opt_view(f.file_name) matches Some(n) && ends_with(
            lower(n),
            ".agent.md"@,
        ))
}

/// Every file of the global agent folder named `*.agent.md` (in any case)
/// becomes one agent: a walk that succeeds lists exactly as many agents as
/// it met such files, and each one under its location.
pub proof fn lemma_every_global_agent_file_listed(
    items: Seq<ScanItem<GlobalAgentFile>>,
    trusted: Seq<Seq<u8>>,
)
    ensures
        scanned_global_agents(items, trusted) matches Ok(rs) ==> {
            let s = sort_by_key(rs, |v: GlobalAgentView| global_agent_key(v));
            &&& rs.len() == items.filter(global_agent_file()).len()
            &&& s.len() == rs.len()
            &&& forall|i: int|
                0 <= i < items.len() && global_agent_file()(#[trigger] items[i]) ==> exists|j: int|
                    0 <= j < s.len() && s[j].file_location == items[i]->Found_0.path@
        },
{
    lemma_scanned_is_fold(items, trusted);
    super::lemma_sorted_walk_lists(
        items,
        global_agent_step(trusted),
        global_agent_file(),
        |v: GlobalAgentView| global_agent_key(v),
        |v: GlobalAgentView| v.file_location,
        |f: GlobalAgentFile| f.path@,
    );
    if let Ok(rs) = scanned_global_agents(items, trusted) {
        crate::order::lemma_sort_by_key_sorted_permutation(rs, |v: GlobalAgentView| global_agent_key(v));
    }
}

/// Global agents are listed by name, then by location, ignoring ASCII case.
pub open spec fn global_agent_key(r: GlobalAgentView) -> (Seq<char>, Seq<char>) {
    (lower(r.name), lower(r.file_location))
}

/// The views of a list of byte strings.
pub open spec fn byte_views(s: Seq<Vec<u8>>) -> Seq<Seq<u8>> {
    s.map_values(|b: Vec<u8>| b@)
}

/// Equality of two byte strings.
fn bytes_equal(a: &Vec<u8>, b: &Vec<u8>) -> (r: bool)
    ensures
        r == (a@ == b@),
{
    if a.len() != b.len() {
        return false;
    }
    let mut i: usize = 0;
    while i < a.len()
        invariant
            i <= a.len() == b.len(),
            forall|k: int| 0 <= k < i ==> a@[k] == b@[k],
        decreases a.len() - i,
    {
        if a[i] != b[i] {
            return false;
        }
        i = i + 1;
    }
    assert(a@ =~= b@);
    true
}

/// Whether `bytes` is one of the trusted byte strings.
fn is_trusted_bytes(bytes: &Vec<u8>, trusted: &Vec<Vec<u8>>) -> (r: bool)
    ensures
        r == byte_views(trusted@).contains(bytes@),
{
    let ghost tv = byte_views(trusted@);
    let mut i: usize = 0;
    while i < trusted.len()
        invariant
            i <= trusted.len(),
            tv == byte_views(trusted@),
            forall|k: int| 0 <= k < i ==> tv[k] != bytes@,
        decreases trusted.len() - i,
    {
        if bytes_equal(&trusted[i], bytes) {
            assert(tv[i as int] == bytes@);
            return true;
        }
        i = i + 1;
    }
    false
}

/// The suffix `.agent.md`, as characters.
pub(crate) fn agent_suffix_chars() -> (v: Vec<char>)
    ensures
        v@ == agent_suffix(),
        v@.len() == 9,
{
    proof {
        reveal_strlit(".agent.md");
    }
    chars_of(".agent.md")
}

/// The outcome of a global agent, as the result of an exec function.
pub open spec fn agent_result_is(
    r: Result<GlobalAgentRecord, TupiError>,
    expected: Result<GlobalAgentView, (ErrorKind, Seq<char>)>,
) -> bool {
    match r {
        Ok(a) => expected == Ok::<GlobalAgentView, (ErrorKind, Seq<char>)>(a@),
        Err(e) => expected == Err::<GlobalAgentView, (ErrorKind, Seq<char>)>(e@),
    }
}

impl AppState {
    /// The agent name that a file name gives; see `global_agent_name_of`.
    pub fn global_agent_name(file_name: &Option<String>, path: &str) -> (r: Result<
        Option<String>,
        TupiError,
    >)
        ensures
            match r {
                Ok(n) => global_agent_name_of(opt_view(*file_name), path@) == Ok::<
                    Option<Seq<char>>,
                    (ErrorKind, Seq<char>),
                >(opt_view(n)),
                Err(e) => global_agent_name_of(opt_view(*file_name), path@) == Err::<
                    Option<Seq<char>>,
                    (ErrorKind, Seq<char>),
                >(e@),
            },
    {
        let f = match file_name {
            None => {
                return Err(
                    TupiError::AgentValidation(
                        joined3("agent file ", path, " must have a valid filename"),
                    ),
                );
            },
            Some(f) => f,
        };
        let suffix = agent_suffix_chars();
        let lowered = lower_chars(f.as_str());
        if !chars_end_with(&lowered, &suffix) {
            return Ok(None);
        }
        let chars = chars_of(f.as_str());
        proof {
            assert(lowered@.len() == chars@.len());
        }
        let cut = chars.len() - 9;
        let stem = string_of_range(&chars, 0, cut);
        let name = trimmed(stem.as_str());
        if !chars_end_with(&chars, &suffix) || name.as_str().is_empty() {
            return Err(
                TupiError::AgentValidation(
                    joined3("agent file ", path, " must end with a non-empty .agent.md name"),
                ),
            );
        }
        Ok(Some(name))
    }

    /// The record of an agent file named `name` at `path`: its description
    /// from the front matter, and trust exactly when its bytes are those of
    /// a trusted agent file.
    pub fn describe_global_agent(
        name: String,
        path: &String,
        contents: &Result<Vec<u8>, String>,
        trusted_agent_bytes: &Vec<Vec<u8>>,
    ) -> (r: Result<GlobalAgentRecord, TupiError>)
        ensures
            agent_result_is(
                r,
                global_agent_outcome(
                    name@,
                    path@,
                    read_view(*contents),
                    byte_views(trusted_agent_bytes@),
                ),
            ),
            r matches Ok(a) ==> (a.trust_status == TrustStatus::Trusted <==> (contents matches Ok(
                b,
            ) && byte_views(trusted_agent_bytes@).contains(b@))),
    {
        let bytes = match contents {
            Err(m) => {
                let msg = joined3(path.as_str(), " (", joined(m.as_str(), ")").as_str());
                proof {
                    assert(msg@ =~= path@ + " ("@ + m@ + ")"@);
                }
                return Err(TupiError::AgentRead(msg));
            },
            Ok(b) => b,
        };
        let text = match decode_utf8_text(bytes) {
            Err(m) => {
                let msg = joined3(
                    path.as_str(),
                    " is not valid UTF-8 (",
                    joined(m.as_str(), ")").as_str(),
                );
                proof {
                    assert(msg@ =~= path@ + " is not valid UTF-8 ("@ + utf8_error_text(bytes@)
                        + ")"@);
                }
                return Err(TupiError::AgentRead(msg));
            },
            Ok(t) => t,
        };
        let description = Self::extract_frontmatter_description(text.as_str())?;
        let trust_status = if is_trusted_bytes(bytes, trusted_agent_bytes) {
            TrustStatus::Trusted
        } else {
            TrustStatus::Untrusted
        };
        Ok(GlobalAgentRecord { name, file_location: path.clone(), description, trust_status })
    }

    /// The global agents found in a walk of the agent folder, given as the
    /// files met in walk order; the first failure or invalid agent file is
    /// the error. The agents are listed by name, then by location, ignoring
    /// ASCII case.
    pub fn collect_walked_global_agents(
        items: &Vec<ScanItem<GlobalAgentFile>>,
        trusted_agent_bytes: &Vec<Vec<u8>>,
    ) -> (r: Result<Vec<GlobalAgentRecord>, TupiError>)
        ensures
            match scanned_global_agents(items@, byte_views(trusted_agent_bytes@)) {
                Ok(rs) => r matches Ok(out) && out@.map_values(|a: GlobalAgentRecord| a@)
                    == sort_by_key(rs, |v: GlobalAgentView| global_agent_key(v)),
                Err(e) => r matches Err(x) && x@ == e,
            },
    {
        let ghost tv = byte_views(trusted_agent_bytes@);
        let mut found: Vec<GlobalAgentRecord> = Vec::new();
        let mut i: usize = 0;
        assert(items@.take(0) =~= Seq::<ScanItem<GlobalAgentFile>>::empty());
        assert(found@.map_values(|a: GlobalAgentRecord| a@) =~= Seq::<GlobalAgentView>::empty());
        while i < items.len()
            invariant
                i <= items.len(),
                tv == byte_views(trusted_agent_bytes@),
                scanned_global_agents(items@.take(i as int), tv) == Ok::<
                    Seq<GlobalAgentView>,
                    (ErrorKind, Seq<char>),
                >(found@.map_values(|a: GlobalAgentRecord| a@)),
            decreases items.len() - i,
        {
            let ghost t = items@.take(i + 1);
            proof {
                assert(t.drop_last() =~= items@.take(i as int));
                assert(t.last() == items@[i as int]);
            }
            match &items[i] {
                ScanItem::Failed(e) => {
                    proof {
                        lemma_scan_error_sticks(items@, tv, i + 1);
                    }
                    return Err(copy_error(e));
                },
                ScanItem::Found(f) => {
                    let named = Self::global_agent_name(&f.file_name, f.path.as_str());
                    match named {
                        Err(e) => {
                            proof {
                                lemma_scan_error_sticks(items@, tv, i + 1);
                            }
                            return Err(e);
                        },
                        Ok(None) => {},
                        Ok(Some(n)) => {
                            let rec = Self::describe_global_agent(
                                n,
                                &f.path,
                                &f.contents,
                                trusted_agent_bytes,
                            );
                            match rec {
                                Err(e) => {
                                    proof {
                                        lemma_scan_error_sticks(items@, tv, i + 1);
                                    }
                                    return Err(e);
                                },
                                Ok(a) => {
                                    let ghost before = found@;
                                    found.push(a);
                                    assert(found@.map_values(|a: GlobalAgentRecord| a@) =~= before.map_values(
                                        |a: GlobalAgentRecord| a@,
                                    ).push(a@));
                                },
                            }
                        },
                    }
                },
            }
            i = i + 1;
        }
        assert(items@.take(items.len() as int) =~= items@);
        Ok(Self::sort_global_agents(found))
    }

    /// Global agents listed by name, then by location, ignoring ASCII case.
    pub fn sort_global_agents(found: Vec<GlobalAgentRecord>) -> (sorted: Vec<GlobalAgentRecord>)
        ensures
            sorted@.map_values(|a: GlobalAgentRecord| a@) == sort_by_key(
                found@.map_values(|a: GlobalAgentRecord| a@),
                |v: GlobalAgentView| global_agent_key(v),
            ),
    {
        let mut keys: Vec<SortKey> = Vec::new();
        let mut k: usize = 0;
        while k < found.len()
            invariant
                k <= found.len(),
                keys.len() == k,
                forall|j: int| 0 <= j < k ==> #[trigger] keys@[j]@ == global_agent_key(found@[j]@),
            decreases found.len() - k,
        {
            let key = SortKey {
                primary: lower_chars(found[k].name.as_str()),
                secondary: lower_chars(found[k].file_location.as_str()),
            };
            keys.push(key);
            k = k + 1;
        }
        let ghost rkey = |a: GlobalAgentRecord| global_agent_key(a@);
        let ghost f = |a: GlobalAgentRecord| a@;
        let ghost unsorted = found@;
        let sorted = sort_with_keys(found, keys, Ghost(rkey));
        proof {
            lemma_sort_by_key_map(unsorted, f, |v: GlobalAgentView| global_agent_key(v), rkey);
            assert(unsorted.map_values(f) =~= unsorted.map_values(|a: GlobalAgentRecord| a@));
        }
        sorted
    }
}

// ---------------------------------------------------------------------------
// Stored global agents
// ---------------------------------------------------------------------------

/// A stored global agent: the columns of its row.
#[derive(Debug)]
pub struct GlobalAgentRow {
    pub file_location: String,
    pub agent_name: String,
    pub description: Option<String>,
    pub trust_status: String,
}

/// The row that stores a global agent.
pub open spec fn agent_row_matches(row: GlobalAgentRow, a: GlobalAgentView) -> bool {
    &&& row.file_location@ == a.file_location
    &&& row.agent_name@ == a.name
    &&& opt_view(row.description) == a.description
    &&& row.trust_status@ == crate::trust::status_label(a.trust_status)
}

/// The agent that a stored row stands for.
pub open spec fn agent_of_row(row: GlobalAgentRow) -> GlobalAgentView {
    GlobalAgentView {
        name: row.agent_name@,
        file_location: row.file_location@,
        description: opt_view(row.description),
        trust_status: status_of_label(row.trust_status@),
    }
}

/// The state loaded from stored rows and the stored scan state: the agents
/// that the rows stand for, listed by name, then by location, ignoring
/// ASCII case (rows with equal keys keep their order), with the state of
/// the last scan, or `default_scan_root` and nothing else where no scan was
/// stored.
pub open spec fn loaded_state_is(
    st: GlobalAgentsState,
    rows: Seq<GlobalAgentRow>,
    scan_state: Option<ScanStateRow>,
    default_scan_root: Seq<char>,
) -> bool {
    &&& st.agents@.map_values(|a: GlobalAgentRecord| a@) == sort_by_key(
        rows.map_values(|r: GlobalAgentRow| agent_of_row(r)),
        |v: GlobalAgentView| global_agent_key(v),
    )
    &&& match scan_state {
        Some(s) => st.scan_root@ == s.scan_root@ && opt_view(st.refreshed_at) == opt_view(
            s.refreshed_at,
        ) && opt_view(st.error_message) == opt_view(s.error_message),
        None => st.scan_root@ == default_scan_root && st.refreshed_at is None
            && st.error_message is None,
    }
}

impl ScanStateRow {
    /// The scan state after a scan of `scan_root` succeeded at
    /// `refreshed_at`: no error is left.
    pub fn after_success(scan_root: String, refreshed_at: String) -> (s: ScanStateRow)
        ensures
            s.scan_root@ == scan_root@,
            opt_view(s.refreshed_at) == Some(refreshed_at@),
            s.error_message is None,
    {
        ScanStateRow { scan_root, refreshed_at: Some(refreshed_at), error_message: None }
    }

    /// The scan state after a scan of `scan_root` failed with
    /// `error_message`: the time of the last successful scan is kept.
    pub fn after_failure(previous: Option<ScanStateRow>, scan_root: String, error_message: String) -> (s:
        ScanStateRow)
        ensures
            s.scan_root@ == scan_root@,
            opt_view(s.refreshed_at) == match previous {
                Some(p) => opt_view(p.refreshed_at),
                None => None,
            },
            opt_view(s.error_message) == Some(error_message@),
    {
        let refreshed_at = match previous {
            Some(p) => p.refreshed_at,
            None => None,
        };
        ScanStateRow { scan_root, refreshed_at, error_message: Some(error_message) }
    }
}

impl AppState {
    /// The rows that store a list of global agents, in order.
    pub fn global_agent_rows(agents: &Vec<GlobalAgentRecord>) -> (rows: Vec<GlobalAgentRow>)
        ensures
            rows.len() == agents.len(),
            forall|i: int| 0 <= i < rows.len() ==> agent_row_matches(#[trigger] rows@[i], agents@[i]@),
    {
        let mut rows: Vec<GlobalAgentRow> = Vec::new();
        let mut i: usize = 0;
        while i < agents.len()
            invariant
                i <= agents.len(),
                rows.len() == i,
                forall|k: int| 0 <= k < i ==> agent_row_matches(#[trigger] rows@[k], agents@[k]@),
            decreases agents.len() - i,
        {
            let a = &agents[i];
            rows.push(
                GlobalAgentRow {
                    file_location: a.file_location.clone(),
                    agent_name: a.name.clone(),
                    description: super::copy_opt(&a.description),
                    trust_status: owned(Self::trust_status_label(&a.trust_status)),
                },
            );
            i = i + 1;
        }
        rows
    }

    /// The stored global agents, listed by name, then by location, ignoring
    /// ASCII case (rows with equal keys keep their order), with the state
    /// of the last scan, or `default_scan_root` and nothing else where no
    /// scan was stored.
    pub fn load_global_agents_state(
        &self,
        rows: Vec<GlobalAgentRow>,
        scan_state: Option<ScanStateRow>,
        default_scan_root: String,
    ) -> (st: GlobalAgentsState)
        ensures
            loaded_state_is(st, rows@, scan_state, default_scan_root@),
    {
        let ghost rv = rows@;
        let mut agents: Vec<GlobalAgentRecord> = Vec::new();
        let mut rows = rows;
        let mut i: usize = 0;
        let n = rows.len();
        while rows.len() > 0
            invariant
                i + rows.len() == n == rv.len(),
                rows@ == rv.skip(i as int),
                agents@.map_values(|a: GlobalAgentRecord| a@) == rv.take(i as int).map_values(
                    |r: GlobalAgentRow| agent_of_row(r),
                ),
            decreases rows.len(),
        {
            let row = rows.remove(0);
            assert(row == rv[i as int]);
            let trust_status = Self::trust_status_from_str(row.trust_status.as_str());
            let ghost before = agents@;
            agents.push(
                GlobalAgentRecord {
                    name: row.agent_name,
                    file_location: row.file_location,
                    description: row.description,
                    trust_status,
                },
            );
            proof {
                assert(rv.take(i + 1) =~= rv.take(i as int).push(rv[i as int]));
                assert(agents@.map_values(|a: GlobalAgentRecord| a@) =~= before.map_values(
                    |a: GlobalAgentRecord| a@,
                ).push(agent_of_row(rv[i as int])));
                assert(rows@ =~= rv.skip(i + 1));
            }
            i = i + 1;
        }
        assert(rv.take(n as int) =~= rv);
        let agents = Self::sort_global_agents(agents);
        match scan_state {
            Some(s) => GlobalAgentsState {
                agents,
                scan_root: s.scan_root,
                refreshed_at: s.refreshed_at,
                error_message: s.error_message,
            },
            None => GlobalAgentsState {
                agents,
                scan_root: default_scan_root,
                refreshed_at: None,
                error_message: None,
            },
        }
    }
}

/// Agents stored as rows are read back as the same agents, and agents
/// listed in order are read back in the same order, whatever order the
/// rows come back in.
pub proof fn lemma_global_agents_round_trip(agents: Seq<GlobalAgentView>, rows: Seq<GlobalAgentRow>)
    requires
        rows.len() == agents.len(),
        forall|i: int| 0 <= i < rows.len() ==> agent_row_matches(#[trigger] rows[i], agents[i]),
    ensures
        rows.map_values(|r: GlobalAgentRow| agent_of_row(r)) == agents,
        crate::order::sorted_by_key(agents, |v: GlobalAgentView| global_agent_key(v)) ==> sort_by_key(
            rows.map_values(|r: GlobalAgentRow| agent_of_row(r)),
            |v: GlobalAgentView| global_agent_key(v),
        ) == agents,
{
    assert forall|i: int| 0 <= i < rows.len() implies #[trigger] agent_of_row(rows[i]) == agents[i] by {
        crate::trust::lemma_label_round_trip(agents[i].trust_status);
    }
    assert(rows.map_values(|r: GlobalAgentRow| agent_of_row(r)) =~= agents);
    if crate::order::sorted_by_key(agents, |v: GlobalAgentView| global_agent_key(v)) {
        crate::order::lemma_sort_by_key_sorted_identity(agents, |v: GlobalAgentView| global_agent_key(v));
    }
}

/// A copy of an error.
pub fn copy_error(e: &TupiError) -> (c: TupiError)
    ensures
        c@ == e@,
{
    crate::error::make_error(e.kind(), e.detail().clone())
}

proof fn lemma_scan_error_sticks(
    items: Seq<ScanItem<GlobalAgentFile>>,
    trusted: Seq<Seq<u8>>,
    n: int,
)
    requires
        0 <= n <= items.len(),
        scanned_global_agents(items.take(n), trusted) is Err,
    ensures
        scanned_global_agents(items, trusted) == scanned_global_agents(items.take(n), trusted),
    decreases items.len() - n,
{
    if n < items.len() {
        let t = items.take(n + 1);
        assert(t.drop_last() =~= items.take(n));
        lemma_scan_error_sticks(items, trusted, n + 1);
    } else {
        assert(items.take(n) =~= items);
    }
}


/// What a refresh of a folder scan leaves: the scan state to store, the
/// rows to store in place of the old ones where the scan succeeded, and
/// what the refresh answers.
#[derive(Debug)]
pub struct ScanRefresh<S, R> {
    pub scan_state: ScanStateRow,
    pub rows: Option<R>,
    pub result: Result<S, TupiError>,
}

/// The scan state after a scan of `root` succeeded at `refreshed_at`.
pub open spec fn succeeded_scan(s: ScanStateRow, root: Seq<char>, refreshed_at: Seq<char>) -> bool {
    &&& s.scan_root@ == root
    &&& opt_view(s.refreshed_at) == Some(refreshed_at)
    &&& s.error_message is None
}

/// A refresh that failed with `e` while scanning `root`: nothing is stored
/// but the scan state, which records the error's message and keeps the time
/// of the last successful scan.
pub open spec fn failed_refresh<S, R>(
    out: ScanRefresh<S, R>,
    e: TupiError,
    root: Seq<char>,
    previous: Option<ScanStateRow>,
) -> bool {
    &&& out.result matches Err(x) && x@ == e@
    &&& out.rows is None
    &&& out.scan_state.scan_root@ == root
    &&& opt_view(out.scan_state.error_message) == Some(error_prefix(e@.0) + e@.1)
    &&& opt_view(out.scan_state.refreshed_at) == match previous {
        Some(p) => opt_view(p.refreshed_at),
        None => None,
    }
}

impl AppState {
    /// The outcome of a refresh of the global agents, given where the agent
    /// folder is (or why it is unknown, in which case `default_root` is
    /// recorded as scanned and `collected` is not looked at), what the scan
    /// collected, the stored scan state, and the time of the refresh. A
    /// failure is recorded with its message and keeps the time of the last
    /// successful scan; a success replaces the stored agents.
    pub fn refresh_global_agents(
        &self,
        root: Result<String, TupiError>,
        default_root: String,
        collected: Result<Vec<GlobalAgentRecord>, TupiError>,
        previous: Option<ScanStateRow>,
        refreshed_at: String,
    ) -> (out: ScanRefresh<GlobalAgentsState, Vec<GlobalAgentRow>>)
        ensures
            match (root, collected) {
                (Err(e), _) => failed_refresh(out, e, default_root@, previous),
                (Ok(r), Err(e)) => failed_refresh(out, e, r@, previous),
                (Ok(r), Ok(agents)) => {
                    &&& out.result matches Ok(st)
                    &&& st.agents@.map_values(|a: GlobalAgentRecord| a@) == agents@.map_values(
                        |a: GlobalAgentRecord| a@,
                    )
                    &&& st.scan_root@ == r@
                    &&& opt_view(st.refreshed_at) == Some(refreshed_at@)
                    &&& st.error_message is None
                    &&& out.rows matches Some(rows)
                    &&& rows.len() == agents.len()
                    &&& forall|i: int|
                        0 <= i < rows.len() ==> agent_row_matches(#[trigger] rows@[i], agents@[i]@)
                    &&& succeeded_scan(out.scan_state, r@, refreshed_at@)
                },
            },
    {
        match root {
            Err(e) => {
                let msg = e.message();
                ScanRefresh {
                    scan_state: ScanStateRow::after_failure(previous, default_root, msg),
                    rows: None,
                    result: Err(e),
                }
            },
            Ok(r) => match collected {
                Err(e) => {
                    let msg = e.message();
                    ScanRefresh {
                        scan_state: ScanStateRow::after_failure(previous, r, msg),
                        rows: None,
                        result: Err(e),
                    }
                },
                Ok(agents) => {
                    let rows = Self::global_agent_rows(&agents);
                    let scan_state = ScanStateRow::after_success(r.clone(), refreshed_at.clone());
                    ScanRefresh {
                        scan_state,
                        rows: Some(rows),
                        result: Ok(
                            GlobalAgentsState {
                                agents,
                                scan_root: r,
                                refreshed_at: Some(refreshed_at),
                                error_message: None,
                            },
                        ),
                    }
                },
            },
        }
    }
}



/// Loading after a failed refresh of the global agents keeps the stored
/// agents and the time of the last successful scan, and shows the folder
/// that was scanned and the error's message.
pub proof fn lemma_failed_refresh_then_load(
    out: ScanRefresh<GlobalAgentsState, Vec<GlobalAgentRow>>,
    e: TupiError,
    root: Seq<char>,
    previous: Option<ScanStateRow>,
    rows: Seq<GlobalAgentRow>,
    default_scan_root: Seq<char>,
    before: GlobalAgentsState,
    after: GlobalAgentsState,
)
    requires
        failed_refresh(out, e, root, previous),
        loaded_state_is(before, rows, previous, default_scan_root),
        loaded_state_is(after, rows, Some(out.scan_state), default_scan_root),
    ensures
        after.agents@.map_values(|a: GlobalAgentRecord| a@) == before.agents@.map_values(
            |a: GlobalAgentRecord| a@,
        ),
        after.scan_root@ == root,
        opt_view(after.error_message) == Some(error_prefix(e@.0) + e@.1),
        opt_view(after.refreshed_at) == opt_view(before.refreshed_at),
{
}


/// Loading after a successful refresh of the global agents gives back the
/// agents that the refresh found, with the folder it scanned, its time and
/// no error, whatever order the store hands the rows back in, as long as no
/// two agents share a name and location (ignoring ASCII case).
pub proof fn lemma_global_refresh_then_load(
    agents: Seq<GlobalAgentView>,
    rows: Seq<GlobalAgentRow>,
    scan_state: ScanStateRow,
    root: Seq<char>,
    refreshed_at: Seq<char>,
    stored: Seq<GlobalAgentRow>,
    default_scan_root: Seq<char>,
    after: GlobalAgentsState,
)
    requires
        rows.len() == agents.len(),
        forall|i: int| 0 <= i < rows.len() ==> agent_row_matches(#[trigger] rows[i], agents[i]),
        succeeded_scan(scan_state, root, refreshed_at),
        crate::order::sorted_by_key(agents, |v: GlobalAgentView| global_agent_key(v)),
        crate::order::keys_distinct(agents, |v: GlobalAgentView| global_agent_key(v)),
        stored.map_values(|r: GlobalAgentRow| agent_of_row(r)).to_multiset() == rows.map_values(
            |r: GlobalAgentRow| agent_of_row(r),
        ).to_multiset(),
        loaded_state_is(after, stored, Some(scan_state), default_scan_root),
    ensures
        after.agents@.map_values(|a: GlobalAgentRecord| a@) == agents,
        after.scan_root@ == root,
        opt_view(after.refreshed_at) == Some(refreshed_at),
        after.error_message is None,
{
    lemma_global_agents_round_trip(agents, rows);
    lemma_stored_agents_any_order(agents, stored);
}

/// The trusted agent files as bytes, or none where the catalog could not be
/// read: a global agent is then never trusted.
pub open spec fn trusted_views(trusted: Result<Vec<Vec<u8>>, TupiError>) -> Seq<Seq<u8>> {
    match trusted {
        Ok(t) => byte_views(t@),
        Err(_) => Seq::empty(),
    }
}

proof fn lemma_scanned_untrusted(items: Seq<ScanItem<GlobalAgentFile>>)
    requires
        scanned_global_agents(items, Seq::empty()) is Ok,
    ensures
        forall|i: int|
            0 <= i < scanned_global_agents(items, Seq::empty())->Ok_0.len() ==> (
            #[trigger] scanned_global_agents(items, Seq::empty())->Ok_0[i]).trust_status
                == TrustStatus::Untrusted,
    decreases items.len(),
{
    if items.len() > 0 {
        lemma_scanned_untrusted(items.drop_last());
        let found = scanned_global_agents(items.drop_last(), Seq::empty())->Ok_0;
        let r = scanned_global_agents(items, Seq::empty())->Ok_0;
        assert forall|i: int| 0 <= i < r.len() implies (#[trigger] r[i]).trust_status
            == TrustStatus::Untrusted by {
            if i < found.len() {
                assert(r[i] == found[i]);
            }
        }
    }
}

impl AppState {
    /// The global agents under the agent folder `root`, given whether it
    /// exists and is a folder, the files met walking it, and the trusted
    /// agent files (or the error met reading the catalog, in which case no
    /// agent is trusted). A missing folder holds no agents; a path that is
    /// not a folder is an error; otherwise see `collect_walked_global_agents`.
    pub fn collect_global_agents(
        root: &str,
        root_exists: bool,
        root_is_dir: bool,
        items: &Vec<ScanItem<GlobalAgentFile>>,
        trusted: &Result<Vec<Vec<u8>>, TupiError>,
    ) -> (r: Result<Vec<GlobalAgentRecord>, TupiError>)
        ensures
            !root_exists ==> (r matches Ok(out) && out.len() == 0),
            root_exists && !root_is_dir ==> (r matches Err(e) && e@ == (
                ErrorKind::AgentRead,
                root@ + " is not a directory"@,
            )),
            root_exists && root_is_dir ==> (match scanned_global_agents(items@, trusted_views(*trusted)) {
                Ok(rs) => r matches Ok(out) && out@.map_values(|a: GlobalAgentRecord| a@)
                    == sort_by_key(rs, |v: GlobalAgentView| global_agent_key(v)),
                Err(e) => r matches Err(x) && x@ == e,
            }),
            trusted is Err ==> (r matches Ok(out) ==> forall|i: int|
                0 <= i < out.len() ==> (#[trigger] out@[i]).trust_status == TrustStatus::Untrusted),
    {
        if !Self::check_scan_root(root, root_exists, root_is_dir, ErrorKind::AgentRead)? {
            return Ok(Vec::new());
        }
        let none: Vec<Vec<u8>> = Vec::new();
        let bytes = match trusted {
            Ok(t) => t,
            Err(_) => &none,
        };
        assert(byte_views(none@) =~= Seq::<Seq<u8>>::empty());
        let r = Self::collect_walked_global_agents(items, bytes);
        proof {
            if trusted is Err && r is Ok {
                let out = r->Ok_0;
                {
                    broadcast use vstd::seq_lib::group_to_multiset_ensures;

                    let found = scanned_global_agents(items@, Seq::empty())->Ok_0;
                    lemma_scanned_untrusted(items@);
                    crate::order::lemma_sort_by_key_sorted_permutation(
                        found,
                        |v: GlobalAgentView| global_agent_key(v),
                    );
                    let sorted = sort_by_key(found, |v: GlobalAgentView| global_agent_key(v));
                    assert forall|i: int| 0 <= i < out.len() implies (
                    #[trigger] out@[i]).trust_status == TrustStatus::Untrusted by {
                        assert(out@.map_values(|a: GlobalAgentRecord| a@)[i] == sorted[i]);
                        assert(sorted.to_multiset().count(sorted[i]) > 0);
                        assert(found.contains(sorted[i]));
                        let j = choose|j: int| 0 <= j < found.len() && found[j] == sorted[i];
                        assert(found[j].trust_status == TrustStatus::Untrusted);
                    }
                }
            }
        }
        r
    }
}


/// The bytes read for catalog agents, in catalog order: one entry per
/// catalog agent, `None` where its marketplace workspace is not cached or
/// no candidate file of it exists, else the outcome of reading the file.
pub open spec fn read_bytes(found: Seq<Option<Result<Vec<u8>, String>>>) -> Seq<Seq<u8>>
    decreases found.len(),
{
    if found.len() == 0 {
        Seq::empty()
    } else {
        match found.last() {
            Some(Ok(b)) => read_bytes(found.drop_last()).push(b@),
            _ => read_bytes(found.drop_last()),
        }
    }
}

/// Whether a read gave the bytes `b`.
pub open spec fn read_as(f: Option<Result<Vec<u8>, String>>, b: Seq<u8>) -> bool {
    f matches Some(Ok(x)) && x@ == b
}

proof fn lemma_read_bytes_holds(found: Seq<Option<Result<Vec<u8>, String>>>, b: Seq<u8>)
    ensures
        read_bytes(found).contains(b) <==> exists|i: int|
            0 <= i < found.len() && #[trigger] read_as(found[i], b),
    decreases found.len(),
{
    if found.len() > 0 {
        let init = found.drop_last();
        lemma_read_bytes_holds(init, b);
        let prev = read_bytes(init);
        if exists|i: int| 0 <= i < found.len() && #[trigger] read_as(found[i], b) {
            let i = choose|i: int| 0 <= i < found.len() && #[trigger] read_as(found[i], b);
            if i < init.len() {
                assert(init[i] == found[i]);
                assert(prev.contains(b));
                let k = choose|k: int| 0 <= k < prev.len() && prev[k] == b;
                match found.last() {
                    Some(Ok(y)) => {
                        assert(read_bytes(found)[k] == b);
                    },
                    _ => {},
                }
            } else {
                assert(read_bytes(found)[prev.len() as int] == b);
            }
        }
        if read_bytes(found).contains(b) {
            let k = choose|k: int| 0 <= k < read_bytes(found).len() && read_bytes(found)[k] == b;
            match found.last() {
                Some(Ok(y)) => {
                    if k < prev.len() {
                        assert(prev[k] == b);
                        let i = choose|i: int| 0 <= i < init.len() && #[trigger] read_as(init[i], b);
                        assert(found[i] == init[i]);
                    } else {
                        assert(read_as(found[found.len() - 1], b));
                    }
                },
                _ => {
                    assert(prev[k] == b);
                    let i = choose|i: int| 0 <= i < init.len() && #[trigger] read_as(init[i], b);
                    assert(found[i] == init[i]);
                },
            }
        }
    }
}

impl AppState {
    /// The first of a list of candidates that exists, given whether each
    /// does: the file of a catalog agent, or the folder that holds the
    /// catalog.
    pub fn first_existing_file(exists: &Vec<bool>) -> (r: Option<usize>)
        ensures
            match r {
                Some(i) => i < exists@.len() && exists@[i as int] && forall|k: int|
                    0 <= k < i ==> !#[trigger] exists@[k],
                None => forall|k: int| 0 <= k < exists@.len() ==> !#[trigger] exists@[k],
            },
    {
        let mut i: usize = 0;
        while i < exists.len()
            invariant
                i <= exists.len(),
                forall|k: int| 0 <= k < i ==> !#[trigger] exists@[k],
            decreases exists.len() - i,
        {
            if exists[i] {
                return Some(i);
            }
            i = i + 1;
        }
        None
    }

    /// The bytes of the trusted agent files: those read for catalog agents
    /// whose marketplace workspace is cached and holds one of the agent's
    /// candidate files. A global agent is trusted only when its bytes are
    /// among them; see `describe_global_agent`.
    pub fn trusted_agent_bytes(found: Vec<Option<Result<Vec<u8>, String>>>) -> (out: Vec<Vec<u8>>)
        ensures
            byte_views(out@) == read_bytes(found@),
            forall|b: Seq<u8>|
                byte_views(out@).contains(b) <==> exists|i: int|
                    0 <= i < found@.len() && #[trigger] read_as(found@[i], b),
    {
        let ghost fv = found@;
        let mut out: Vec<Vec<u8>> = Vec::new();
        let mut found = found;
        let mut i: usize = 0;
        let n = found.len();
        assert(fv.take(0) =~= Seq::<Option<Result<Vec<u8>, String>>>::empty());
        assert(byte_views(out@) =~= Seq::<Seq<u8>>::empty());
        while found.len() > 0
            invariant
                i + found.len() == n == fv.len(),
                found@ == fv.skip(i as int),
                byte_views(out@) == read_bytes(fv.take(i as int)),
            decreases found.len(),
        {
            let item = found.remove(0);
            assert(item == fv[i as int]);
            let t = Ghost(fv.take(i + 1));
            assert(t@.drop_last() =~= fv.take(i as int));
            assert(t@.last() == fv[i as int]);
            if let Some(Ok(b)) = item {
                let ghost before = out@;
                out.push(b);
                assert(byte_views(out@) =~= byte_views(before).push(out@.last()@));
            }
            assert(found@ =~= fv.skip(i + 1));
            i = i + 1;
        }
        assert(fv.take(n as int) =~= fv);
        proof {
            assert forall|b: Seq<u8>| byte_views(out@).contains(b) <==> exists|i: int|
                0 <= i < fv.len() && #[trigger] read_as(fv[i], b) by {
                lemma_read_bytes_holds(fv, b);
            }
        }
        out
    }
}


/// Agents that were listed in order, no two with the same name and
/// location (ignoring ASCII case), are read back in that order whatever
/// order the store hands their rows back in.
pub proof fn lemma_stored_agents_any_order(agents: Seq<GlobalAgentView>, rows: Seq<GlobalAgentRow>)
    requires
        crate::order::sorted_by_key(agents, |v: GlobalAgentView| global_agent_key(v)),
        crate::order::keys_distinct(agents, |v: GlobalAgentView| global_agent_key(v)),
        rows.map_values(|r: GlobalAgentRow| agent_of_row(r)).to_multiset() == agents.to_multiset(),
    ensures
        sort_by_key(
            rows.map_values(|r: GlobalAgentRow| agent_of_row(r)),
            |v: GlobalAgentView| global_agent_key(v),
        ) == agents,
{
    let read = rows.map_values(|r: GlobalAgentRow| agent_of_row(r));
    crate::order::lemma_sort_by_key_sorted_permutation(read, |v: GlobalAgentView| global_agent_key(v));
    crate::order::lemma_sorted_permutation_unique(
        agents,
        sort_by_key(read, |v: GlobalAgentView| global_agent_key(v)),
        |v: GlobalAgentView| global_agent_key(v),
    );
}

} // verus!
