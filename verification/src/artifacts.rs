//! The artifact extractor: a linear scan over the lines of assistant text,
//! entering a block at a line holding the opening marker, accumulating body
//! lines, and emitting one artifact at a line holding the closing marker.
//! An open block never closed is discarded; a second opening marker abandons
//! the block in progress and starts a new one.

use vstd::prelude::*;

use crate::text::{
    contains_sub, contains_sub_exec, find_sub, lemma_find_sub_first_match, spec_find_sub,
    spec_lines, split_lines,
};

verus! {

/// A structured document extracted from assistant text.
#[derive(Debug, Clone)]
pub struct Artifact {
    pub id: String,
    pub title: String,
    pub content_type: String,
    pub content: String,
}

/// Ghost image of an artifact. `id` is `None` where the source line named no
/// identifier and a fresh token is generated instead.
pub struct ArtifactSpec {
    pub id: Option<Seq<char>>,
    pub title: Seq<char>,
    pub content_type: Seq<char>,
    pub content: Seq<char>,
}

/// `a` realizes `s`: equal fields, except that a generated identifier is
/// pinned down only by its length.
pub open spec fn artifact_matches(a: Artifact, s: ArtifactSpec) -> bool {
    &&& match s.id {
        Some(i) => a.id@ == i,
        None => a.id@.len() == 36,
    }
    &&& a.title@ == s.title
    &&& a.content_type@ == s.content_type
    &&& a.content@ == s.content
}

pub open spec fn artifacts_match(v: Seq<Artifact>, s: Seq<ArtifactSpec>) -> bool {
    v.len() == s.len() && forall|i: int| 0 <= i < v.len() ==> artifact_matches(v[i], s[i])
}

/// The value of the first `name="value"` attribute on `line`, if any: the
/// text between the first `name="` and the next double quote.
pub open spec fn spec_attr(line: Seq<char>, name: Seq<char>) -> Option<Seq<char>> {
    let pat = name + seq!['=', '"'];
    match spec_find_sub(line, pat) {
        Some(i) => {
            let start = i + pat.len();
            match spec_find_sub(line.subrange(start, line.len() as int), seq!['"']) {
                Some(k) => Some(line.subrange(start, start + k)),
                None => None,
            }
        },
        None => None,
    }
}

pub open spec fn is_open_line(l: Seq<char>) -> bool {
    contains_sub(l, "<artifact"@)
}

pub open spec fn is_close_line(l: Seq<char>) -> bool {
    contains_sub(l, "</artifact>"@)
}

/// A line that neither opens nor closes a block.
pub open spec fn plain_line(l: Seq<char>) -> bool {
    !is_open_line(l) && !is_close_line(l)
}

pub open spec fn all_plain(ls: Seq<Seq<char>>) -> bool {
    forall|i: int| 0 <= i < ls.len() ==> plain_line(ls[i])
}

/// Body lines joined by single newlines.
pub open spec fn join_lines(ls: Seq<Seq<char>>) -> Seq<char>
    decreases ls.len(),
{
    if ls.len() == 0 {
        Seq::empty()
    } else if ls.len() == 1 {
        ls[0]
    } else {
        join_lines(ls.drop_last()) + seq!['\n'] + ls.last()
    }
}

/// The artifact an open line and its body lines denote: missing attributes
/// take their documented defaults.
pub open spec fn mk_artifact(open_line: Seq<char>, body: Seq<Seq<char>>) -> ArtifactSpec {
    ArtifactSpec {
        id: spec_attr(open_line, "identifier"@),
        title: match spec_attr(open_line, "title"@) {
            Some(t) => t,
            None => "Untitled"@,
        },
        content_type: match spec_attr(open_line, "type"@) {
            Some(t) => t,
            None => "text/plain"@,
        },
        content: join_lines(body),
    }
}

/// Scanner state: outside any block, or inside one with its opening line and
/// the body lines seen so far.
pub enum ScanState {
    Outside,
    Inside { open_line: Seq<char>, body: Seq<Seq<char>> },
}

/// The scan over `lines` from state `st`: the artifacts emitted, in order.
pub open spec fn scan_lines(lines: Seq<Seq<char>>, st: ScanState) -> Seq<ArtifactSpec>
    decreases lines.len(),
{
    if lines.len() == 0 {
        Seq::empty()
    } else {
        let l = lines[0];
        if is_open_line(l) {
            scan_lines(lines.drop_first(), ScanState::Inside { open_line: l, body: Seq::empty() })
        } else if is_close_line(l) {
            match st {
                ScanState::Inside { open_line, body } => seq![mk_artifact(open_line, body)]
                    + scan_lines(lines.drop_first(), ScanState::Outside),
                ScanState::Outside => scan_lines(lines.drop_first(), ScanState::Outside),
            }
        } else {
            match st {
                ScanState::Inside { open_line, body } => scan_lines(
                    lines.drop_first(),
                    ScanState::Inside { open_line, body: body.push(l) },
                ),
                ScanState::Outside => scan_lines(lines.drop_first(), ScanState::Outside),
            }
        }
    }
}

/// All artifacts embedded in `text`, in source order.
pub open spec fn spec_extract(text: Seq<char>) -> Seq<ArtifactSpec> {
    scan_lines(spec_lines(text), ScanState::Outside)
}

proof fn lemma_scan_all_plain_outside(ls: Seq<Seq<char>>)
    requires
        all_plain(ls),
    ensures
        scan_lines(ls, ScanState::Outside) == Seq::<ArtifactSpec>::empty(),
    decreases ls.len(),
{
    if ls.len() > 0 {
        assert(plain_line(ls[0]));
        assert(all_plain(ls.drop_first()));
        lemma_scan_all_plain_outside(ls.drop_first());
    }
}

proof fn lemma_scan_plain_prefix(pre: Seq<Seq<char>>, rest: Seq<Seq<char>>)
    requires
        all_plain(pre),
    ensures
        scan_lines(pre + rest, ScanState::Outside) == scan_lines(rest, ScanState::Outside),
    decreases pre.len(),
{
    if pre.len() == 0 {
        assert(pre + rest =~= rest);
    } else {
        let ls = pre + rest;
        assert(ls[0] == pre[0]);
        assert(plain_line(pre[0]));
        assert(ls.drop_first() =~= pre.drop_first() + rest);
        assert(all_plain(pre.drop_first()));
        lemma_scan_plain_prefix(pre.drop_first(), rest);
    }
}

proof fn lemma_scan_no_close(ls: Seq<Seq<char>>, st: ScanState)
    requires
        forall|i: int| 0 <= i < ls.len() ==> !is_close_line(ls[i]),
    ensures
        scan_lines(ls, st) == Seq::<ArtifactSpec>::empty(),
    decreases ls.len(),
{
    if ls.len() > 0 {
        assert(!is_close_line(ls[0]));
        assert(forall|i: int| 0 <= i < ls.drop_first().len() ==> !is_close_line(
            ls.drop_first()[i],
        ));
        if is_open_line(ls[0]) {
            lemma_scan_no_close(
                ls.drop_first(),
                ScanState::Inside { open_line: ls[0], body: Seq::empty() },
            );
        } else {
            match st {
                ScanState::Inside { open_line, body } => {
                    lemma_scan_no_close(
                        ls.drop_first(),
                        ScanState::Inside { open_line, body: body.push(ls[0]) },
                    );
                },
                ScanState::Outside => {
                    lemma_scan_no_close(ls.drop_first(), ScanState::Outside);
                },
            }
        }
    }
}

proof fn lemma_scan_block_body(
    body_rest: Seq<Seq<char>>,
    open_line: Seq<char>,
    acc: Seq<Seq<char>>,
    close: Seq<char>,
    rest: Seq<Seq<char>>,
)
    requires
        all_plain(body_rest),
        is_close_line(close),
        !is_open_line(close),
    ensures
        scan_lines(body_rest + seq![close] + rest, ScanState::Inside { open_line, body: acc })
            == seq![mk_artifact(open_line, acc + body_rest)] + scan_lines(
            rest,
            ScanState::Outside,
        ),
    decreases body_rest.len(),
{
    let ls = body_rest + seq![close] + rest;
    if body_rest.len() == 0 {
        assert(ls[0] == close);
        assert(ls.drop_first() =~= rest);
        assert(acc + body_rest =~= acc);
    } else {
        let b0 = body_rest[0];
        assert(ls[0] == b0);
        assert(plain_line(b0));
        assert(ls.drop_first() =~= body_rest.drop_first() + seq![close] + rest);
        assert(all_plain(body_rest.drop_first()));
        lemma_scan_block_body(body_rest.drop_first(), open_line, acc.push(b0), close, rest);
        assert(acc.push(b0) + body_rest.drop_first() =~= acc + body_rest);
    }
}

proof fn lemma_scan_block(
    open_line: Seq<char>,
    body: Seq<Seq<char>>,
    close: Seq<char>,
    rest: Seq<Seq<char>>,
    st: ScanState,
)
    requires
        is_open_line(open_line),
        all_plain(body),
        is_close_line(close),
        !is_open_line(close),
    ensures
        scan_lines(seq![open_line] + body + seq![close] + rest, st) == seq![
            mk_artifact(open_line, body),
        ] + scan_lines(rest, ScanState::Outside),
{
    let ls = seq![open_line] + body + seq![close] + rest;
    assert(ls[0] == open_line);
    assert(ls.drop_first() =~= body + seq![close] + rest);
    lemma_scan_block_body(body, open_line, Seq::empty(), close, rest);
    assert(Seq::empty() + body =~= body);
}

/// One well-formed block — an opening line, body lines free of markers, a
/// closing line — surrounded by marker-free text yields exactly one artifact,
/// and its content is the body lines joined by newlines, verbatim.
pub proof fn lemma_extract_single_block(
    text: Seq<char>,
    pre: Seq<Seq<char>>,
    open_line: Seq<char>,
    body: Seq<Seq<char>>,
    close: Seq<char>,
    post: Seq<Seq<char>>,
)
    requires
        spec_lines(text) == pre + seq![open_line] + body + seq![close] + post,
        all_plain(pre),
        is_open_line(open_line),
        all_plain(body),
        is_close_line(close),
        !is_open_line(close),
        all_plain(post),
    ensures
        spec_extract(text) == seq![mk_artifact(open_line, body)],
        spec_extract(text).len() == 1,
        spec_extract(text)[0].content == join_lines(body),
{
    let rest = seq![open_line] + body + seq![close] + post;
    assert(spec_lines(text) =~= pre + rest);
    lemma_scan_plain_prefix(pre, rest);
    lemma_scan_block(open_line, body, close, post, ScanState::Outside);
    lemma_scan_all_plain_outside(post);
    assert(seq![mk_artifact(open_line, body)] + Seq::<ArtifactSpec>::empty() =~= seq![
        mk_artifact(open_line, body),
    ]);
}

/// Text whose lines never hold the closing marker yields no artifact at all,
/// however many opening markers it holds: an unterminated block is discarded.
pub proof fn lemma_extract_no_close(text: Seq<char>)
    requires
        forall|i: int| 0 <= i < spec_lines(text).len() ==> !is_close_line(spec_lines(text)[i]),
    ensures
        spec_extract(text) == Seq::<ArtifactSpec>::empty(),
{
    lemma_scan_no_close(spec_lines(text), ScanState::Outside);
}

/// Two sequential well-formed blocks yield exactly two artifacts, in source
/// order, each built from its own opening line and body.
pub proof fn lemma_extract_two_blocks(
    text: Seq<char>,
    pre: Seq<Seq<char>>,
    open1: Seq<char>,
    body1: Seq<Seq<char>>,
    close1: Seq<char>,
    mid: Seq<Seq<char>>,
    open2: Seq<char>,
    body2: Seq<Seq<char>>,
    close2: Seq<char>,
    post: Seq<Seq<char>>,
)
    requires
        spec_lines(text) == pre + seq![open1] + body1 + seq![close1] + mid + seq![open2] + body2
            + seq![close2] + post,
        all_plain(pre),
        all_plain(body1),
        all_plain(mid),
        all_plain(body2),
        all_plain(post),
        is_open_line(open1),
        is_open_line(open2),
        is_close_line(close1),
        !is_open_line(close1),
        is_close_line(close2),
        !is_open_line(close2),
    ensures
        spec_extract(text) == seq![mk_artifact(open1, body1), mk_artifact(open2, body2)],
{
    let rest2 = seq![open2] + body2 + seq![close2] + post;
    let rest1 = seq![open1] + body1 + seq![close1] + (mid + rest2);
    assert(spec_lines(text) =~= pre + rest1);
    lemma_scan_plain_prefix(pre, rest1);
    lemma_scan_block(open1, body1, close1, mid + rest2, ScanState::Outside);
    lemma_scan_plain_prefix(mid, rest2);
    lemma_scan_block(open2, body2, close2, post, ScanState::Outside);
    lemma_scan_all_plain_outside(post);
    assert(seq![mk_artifact(open1, body1)] + (seq![mk_artifact(open2, body2)] + Seq::<
        ArtifactSpec,
    >::empty()) =~= seq![mk_artifact(open1, body1), mk_artifact(open2, body2)]);
}

/// Relies on `uuid::Uuid::new_v4` and the hyphenated `Display` form its
/// `to_string` yields: a fresh version-4 UUID always renders as exactly 36
/// characters.
#[verifier::external_body]
fn fresh_artifact_id() -> (r: String)
    ensures
        r@.len() == 36,
{
    uuid::Uuid::new_v4().to_string()
}

/// The current line buffer while inside a block corresponds to the ghost
/// scanner state.
pub open spec fn inside_state_ok(
    cur_id: Seq<char>,
    cur_title: Seq<char>,
    cur_type: Seq<char>,
    content: Seq<char>,
    open_line: Seq<char>,
    body: Seq<Seq<char>>,
) -> bool {
    &&& match spec_attr(open_line, "identifier"@) {
        Some(v) => cur_id == v,
        None => cur_id.len() == 36,
    }
    &&& cur_title == (match spec_attr(open_line, "title"@) {
        Some(t) => t,
        None => "Untitled"@,
    })
    &&& cur_type == (match spec_attr(open_line, "type"@) {
        Some(t) => t,
        None => "text/plain"@,
    })
    &&& content == join_lines(body)
}

/// Extracts artifacts from assistant text.
pub struct ArtifactManager {}

impl ArtifactManager {
    pub fn new() -> (r: Self) {
        ArtifactManager {  }
    }

    /// Scan `text` and return every artifact a well-formed block denotes, in
    /// source order; unterminated or abandoned blocks yield nothing.
    pub fn extract_artifacts(&self, text: &str) -> (r: Vec<Artifact>)
        ensures
            artifacts_match(r@, spec_extract(text@)),
    {
        let lines = split_lines(text);
        let n: usize = lines.len();
        let mut artifacts: Vec<Artifact> = Vec::new();
        let mut in_artifact: bool = false;
        let mut body_empty: bool = true;
        let mut cur_id = String::new();
        let mut cur_title = String::new();
        let mut cur_type = String::new();
        let mut content = String::new();
        let ghost mut st: ScanState = ScanState::Outside;
        let ghost mut emitted: Seq<ArtifactSpec> = Seq::empty();
        let ghost all = lines.deep_view();
        proof {
            assert(all.subrange(0, all.len() as int) =~= all);
            assert(spec_extract(text@) =~= emitted + scan_lines(
                all.subrange(0, all.len() as int),
                st,
            ));
        }
        let mut i: usize = 0;
        while i < n
            invariant
                n == lines@.len(),
                all == lines.deep_view(),
                all.len() == n,
                i <= n,
                spec_extract(text@) == emitted + scan_lines(
                    all.subrange(i as int, n as int),
                    st,
                ),
                artifacts_match(artifacts@, emitted),
                in_artifact == (st is Inside),
                (st matches ScanState::Inside { open_line, body } ==> inside_state_ok(
                    cur_id@,
                    cur_title@,
                    cur_type@,
                    content@,
                    open_line,
                    body,
                ) && body_empty == (body.len() == 0)),
            decreases n - i,
        {
            let ghost rem = all.subrange(i as int, n as int);
            proof {
                assert(rem[0] == all[i as int]);
                assert(rem.drop_first() =~= all.subrange(i + 1, n as int));
            }
            let line = &lines[i];
            proof {
                assert(line@ == all[i as int]);
            }
            if contains_sub_exec(line.as_str(), "<artifact") {
                cur_id = match self.extract_attribute(line.as_str(), "identifier") {
                    Some(v) => v,
                    None => fresh_artifact_id(),
                };
                cur_title = match self.extract_attribute(line.as_str(), "title") {
                    Some(v) => v,
                    None => String::from_str("Untitled"),
                };
                cur_type = match self.extract_attribute(line.as_str(), "type") {
                    Some(v) => v,
                    None => String::from_str("text/plain"),
                };
                content = String::new();
                in_artifact = true;
                body_empty = true;
                proof {
                    st = ScanState::Inside { open_line: line@, body: Seq::empty() };
                }
            } else if contains_sub_exec(line.as_str(), "</artifact>") {
                if in_artifact {
                    let done = Artifact {
                        id: cur_id,
                        title: cur_title,
                        content_type: cur_type,
                        content,
                    };
                    cur_id = String::new();
                    cur_title = String::new();
                    cur_type = String::new();
                    content = String::new();
                    proof {
                        let open_line = st->open_line;
                        let body = st->body;
                        assert(artifact_matches(done, mk_artifact(open_line, body)));
                        emitted = emitted.push(mk_artifact(open_line, body));
                        st = ScanState::Outside;
                        assert(emitted.drop_last() + (seq![mk_artifact(open_line, body)]
                            + scan_lines(rem.drop_first(), ScanState::Outside)) =~= emitted
                            + scan_lines(rem.drop_first(), ScanState::Outside));
                    }
                    artifacts.push(done);
                    in_artifact = false;
                    body_empty = true;
                }
            } else {
                if in_artifact {
                    if body_empty {
                        content.append(line.as_str());
                        body_empty = false;
                    } else {
                        content.append("\n");
                        proof {
                            reveal_strlit("\n");
                        }
                        content.append(line.as_str());
                    }
                    proof {
                        let open_line = st->open_line;
                        let body = st->body;
                        if body.len() == 0 {
                            assert(join_lines(body.push(line@)) == body.push(line@)[0]);
                            assert(content@ =~= join_lines(body.push(line@)));
                        } else {
                            assert(body.push(line@).drop_last() =~= body);
                            assert(content@ =~= join_lines(body) + "\n"@ + line@);
                            assert("\n"@ =~= seq!['\n']);
                        }
                        st = ScanState::Inside { open_line, body: body.push(line@) };
                    }
                }
            }
            i = i + 1;
        }
        proof {
            assert(all.subrange(n as int, n as int) =~= Seq::<Seq<char>>::empty());
            assert(scan_lines(Seq::empty(), st) =~= Seq::<ArtifactSpec>::empty());
            assert(spec_extract(text@) =~= emitted);
        }
        artifacts
    }

    /// The value of the first `attr_name="value"` attribute on `line`:
    /// everything from after that quote up to the next one.
    fn extract_attribute(&self, line: &str, attr_name: &str) -> (r: Option<String>)
        ensures
            match r {
                Some(v) => spec_attr(line@, attr_name@) == Some(v@),
                None => spec_attr(line@, attr_name@) is None,
            },
    {
        let mut pattern = String::from_str(attr_name);
        pattern.append("=\"");
        proof {
            reveal_strlit("=\"");
            assert("=\""@ =~= seq!['=', '"']);
            reveal_strlit("\"");
            assert("\""@ =~= seq!['"']);
        }
        let n: usize = line.unicode_len();
        let i = match find_sub(line, pattern.as_str()) {
            Some(i) => i,
            None => {
                return None;
            },
        };
        proof {
            lemma_find_sub_first_match(line@, pattern@);
        }
        let start = i + pattern.as_str().unicode_len();
        let rest = line.substring_char(start, n);
        let k = match find_sub(rest, "\"") {
            Some(k) => k,
            None => {
                return None;
            },
        };
        proof {
            lemma_find_sub_first_match(rest@, "\""@);
        }
        Some(String::from_str(line.substring_char(start, start + k)))
    }
}

} // verus!
