//! Imported skills: the skill-source grammar, the repository-tree queries
//! that locate a skill's files, front-matter reading, and the selection of
//! relevant skills for a prompt.
//!
//! Downloading and writing files happens outside the library; everything
//! here works on the repository tree as plain path/type pairs and on the
//! file texts.

use vstd::prelude::*;

use crate::text::contains_seq;
use crate::text::contains_str;
use crate::text::ends_with;
use crate::text::ends_with_seq;
use crate::text::join_seq;
use crate::text::join_with;
use crate::text::lower_seq;
use crate::text::split_seq;
use crate::text::split_str;
use crate::text::starts_with;
use crate::text::starts_with_seq;
use crate::text::str_eq;
use crate::text::to_ascii_lowercase;
use crate::text::trim_seq;
use crate::text::trim_str;

verus! {

/// How many skills one prompt may cite.
pub const MAX_SKILLS_IN_PROMPT: usize = 3;

/// The registry record of an installed skill.
#[derive(Clone, Debug)]
pub struct ImportedSkillMeta {
    pub name: String,
    pub title: String,
    pub description: String,
    pub source_url: String,
    pub repository: String,
    pub repository_ref: String,
    pub repository_path: String,
    pub installed_at_utc: String,
}

/// An installed skill together with its instruction text.
#[derive(Clone, Debug)]
pub struct LoadedSkill {
    pub meta: ImportedSkillMeta,
    pub content: String,
}

/// What an import produced.
#[derive(Clone, Debug)]
pub struct ImportResult {
    pub meta: ImportedSkillMeta,
    pub destination: String,
    pub file_count: usize,
}

/// Where a skill reference points.
#[derive(Clone, Debug)]
pub enum SkillSource {
    /// A skills.sh page: owner, repository, and the skill's slug.
    SkillsSh { owner: String, repo: String, slug: String, source_url: String },
    /// A GitHub path: owner, repository, an optional ref, and the path.
    GitHubPath {
        owner: String,
        repo: String,
        ref_name: Option<String>,
        path: String,
        source_url: String,
    },
}

/// Why a skill reference was rejected.
#[derive(Clone, Debug, PartialEq, Eq)]
pub enum SkillSourceError {
    /// The reference is blank.
    Empty,
    /// The reference does not parse as a URL.
    Unparsable,
    /// A skills.sh URL lacks owner, repository or slug.
    BadSkillsShFormat,
    /// A GitHub URL lacks owner or repository.
    MissingOwnerRepo,
    /// A GitHub URL names only the repository, not a skill path.
    MissingSkillPath,
    /// A GitHub tree or blob URL lacks a ref or a path.
    BadTreeUrl,
    /// Neither a skills.sh nor a GitHub host.
    UnsupportedHost,
}

/// What parsing yields for a URL string: the host and the raw path
/// segments, or nothing for an unparsable string.  The result depends on
/// the string alone.
pub uninterp spec fn url_parts_of(s: Seq<char>) -> Option<(Seq<char>, Seq<Seq<char>>)>;

/// Relies on url::Url::parse, Url::host_str and Url::path_segments: parsing
/// either fails or yields the URL's host and its path segments, both
/// functions of the input string alone.
#[verifier::external_body]
fn url_parts(s: &str) -> (r: Option<(String, Vec<String>)>)
    ensures
        r is Some <==> url_parts_of(s@) is Some,
        r is Some ==> r->Some_0.0@ == url_parts_of(s@)->Some_0.0 && r->Some_0.1@.map_values(
            |p: String| p@,
        ) == url_parts_of(s@)->Some_0.1,
{
    match url::Url::parse(s) {
        Ok(u) => {
            let host = u.host_str().unwrap_or_default().to_string();
            let segs: Vec<String> = match u.path_segments() {
                Some(it) => it.map(|x| x.to_string()).collect(),
                None => Vec::new(),
            };
            Some((host, segs))
        },
        Err(_) => None,
    }
}

/// The non-empty entries of a segment list, in order.
pub open spec fn spec_nonempty(segs: Seq<Seq<char>>) -> Seq<Seq<char>>
    decreases segs.len(),
{
    if segs.len() == 0 {
        Seq::empty()
    } else if segs.last().len() > 0 {
        spec_nonempty(segs.drop_last()).push(segs.last())
    } else {
        spec_nonempty(segs.drop_last())
    }
}

/// Drop empty path segments.
fn nonempty_segments(segs: &Vec<String>) -> (r: Vec<String>)
    ensures
        r@.map_values(|p: String| p@) == spec_nonempty(segs@.map_values(|p: String| p@)),
{
    let ghost sv = segs@.map_values(|p: String| p@);
    let mut out: Vec<String> = Vec::new();
    let mut i: usize = 0;
    proof {
        assert(spec_nonempty(sv.subrange(0, 0)) =~= Seq::<Seq<char>>::empty());
        assert(out@.map_values(|p: String| p@) =~= Seq::<Seq<char>>::empty());
    }
    while i < segs.len()
        invariant
            sv == segs@.map_values(|p: String| p@),
            0 <= i <= segs@.len(),
            out@.map_values(|p: String| p@) == spec_nonempty(sv.subrange(0, i as int)),
        decreases segs@.len() - i,
    {
        proof {
            let sub1 = sv.subrange(0, i + 1);
            assert(sub1.drop_last() =~= sv.subrange(0, i as int));
            assert(sub1.last() == sv[i as int]);
            assert(sv[i as int] == segs@[i as int]@);
        }
        if segs[i].as_str().unicode_len() > 0 {
            out.push(segs[i].clone());
            proof {
                assert(out@.map_values(|p: String| p@) =~= out@.drop_last().map_values(
                    |p: String| p@,
                ).push(out@.last()@));
            }
        }
        i = i + 1;
    }
    proof {
        assert(sv.subrange(0, sv.len() as int) =~= sv);
    }
    out
}

/// `s` with every trailing `.git` removed.
pub open spec fn spec_strip_git(s: Seq<char>) -> Seq<char>
    decreases s.len(),
{
    if ends_with_seq(s, ".git"@) && s.len() >= 4 {
        spec_strip_git(s.subrange(0, s.len() - 4))
    } else {
        s
    }
}

/// Strip trailing `.git` suffixes from a repository name.
fn strip_git(s: &str) -> (r: String)
    ensures
        r@ == spec_strip_git(s@),
{
    let mut cur = String::from_str(s);
    proof {
        reveal_strlit(".git");
    }
    loop
        invariant
            spec_strip_git(s@) == spec_strip_git(cur@),
        ensures
            cur@ == spec_strip_git(s@),
        decreases cur@.len(),
    {
        let n = cur.as_str().unicode_len();
        if n >= 4 && ends_with(cur.as_str(), ".git") {
            let shorter = cur.as_str().substring_char(0, n - 4);
            let next = String::from_str(shorter);
            proof {
                reveal_strlit(".git");
                assert(".git"@.len() == 4);
                assert(next@ =~= cur@.subrange(0, cur@.len() - 4));
            }
            cur = next;
        } else {
            proof {
                reveal_strlit(".git");
                assert(".git"@.len() == 4);
                assert(spec_strip_git(cur@) == cur@);
            }
            break;
        }
    }
    cur
}

/// The trimmed reference with a scheme, adding `https` when none is given.
pub open spec fn spec_normalized_ref(s: Seq<char>) -> Seq<char> {
    let t = trim_seq(s);
    if contains_seq(t, "://"@) {
        t
    } else {
        "https://"@ + t
    }
}

/// Where a skill reference points, as a function of the parsed URL: a
/// skills.sh host needs owner, repository and slug; a GitHub host needs
/// owner, repository and a path, where a `tree` or `blob` segment carries
/// the ref before the path; any other host is unsupported.
pub open spec fn spec_parse_source(s: Seq<char>) -> Result<
    (Seq<char>, Seq<char>, Option<Seq<char>>, Seq<char>, int),
    SkillSourceError,
> {
    let normalized = spec_normalized_ref(s);
    if trim_seq(s).len() == 0 {
        Err(SkillSourceError::Empty)
    } else {
        match url_parts_of(normalized) {
            None => Err(SkillSourceError::Unparsable),
            Some((host, raw_segs)) => {
                let h = lower_seq(host);
                let segs = spec_nonempty(raw_segs);
                if h == "skills.sh"@ || h == "www.skills.sh"@ {
                    if segs.len() < 3 {
                        Err(SkillSourceError::BadSkillsShFormat)
                    } else {
                        Ok((segs[0], segs[1], None, segs[2], 0))
                    }
                } else if h == "github.com"@ || h == "www.github.com"@ {
                    if segs.len() < 2 {
                        Err(SkillSourceError::MissingOwnerRepo)
                    } else if segs.len() == 2 {
                        Err(SkillSourceError::MissingSkillPath)
                    } else if segs[2] == "tree"@ || segs[2] == "blob"@ {
                        if segs.len() < 5 {
                            Err(SkillSourceError::BadTreeUrl)
                        } else {
                            Ok(
                                (
                                    segs[0],
                                    spec_strip_git(segs[1]),
                                    Some(segs[3]),
                                    join_seq(segs.subrange(4, segs.len() as int), '/'),
                                    1,
                                ),
                            )
                        }
                    } else {
                        Ok(
                            (
                                segs[0],
                                spec_strip_git(segs[1]),
                                None,
                                join_seq(segs.subrange(2, segs.len() as int), '/'),
                                1,
                            ),
                        )
                    }
                } else {
                    Err(SkillSourceError::UnsupportedHost)
                }
            },
        }
    }
}

/// Parse a skill reference: a skills.sh URL, or a GitHub URL with a path,
/// either with or without its scheme.
pub fn parse_source(reference: &str) -> (r: Result<SkillSource, SkillSourceError>)
    ensures
        r is Ok <==> spec_parse_source(reference@) is Ok,
        r is Err ==> r->Err_0 == spec_parse_source(reference@)->Err_0,
        r is Ok ==> ({
            let (owner, repo, ref_name, path, kind) = spec_parse_source(reference@)->Ok_0;
            match r->Ok_0 {
                SkillSource::SkillsSh { owner: o, repo: rp, slug, source_url } => {
                    &&& kind == 0
                    &&& o@ == owner
                    &&& rp@ == repo
                    &&& slug@ == path
                    &&& source_url@ == spec_normalized_ref(reference@)
                },
                SkillSource::GitHubPath { owner: o, repo: rp, ref_name: rf, path: p, source_url } => {
                    &&& kind == 1
                    &&& o@ == owner
                    &&& rp@ == repo
                    &&& (match (rf, ref_name) {
                        (Some(a), Some(b)) => a@ == b,
                        (None, None) => true,
                        _ => false,
                    })
                    &&& p@ == path
                    &&& source_url@ == spec_normalized_ref(reference@)
                },
            }
        }),
{
    let t = trim_str(reference);
    if t.as_str().unicode_len() == 0 {
        return Err(SkillSourceError::Empty);
    }
    let normalized = if contains_str(t.as_str(), "://") {
        t
    } else {
        let mut n = String::from_str("https://");
        n.append(t.as_str());
        n
    };
    let (host, raw_segs) = match url_parts(normalized.as_str()) {
        Some(p) => p,
        None => {
            return Err(SkillSourceError::Unparsable);
        },
    };
    let h = to_ascii_lowercase(host.as_str());
    let segs = nonempty_segments(&raw_segs);
    let ghost segs_view = segs@.map_values(|p: String| p@);
    proof {
        assert(forall|j: int|
            0 <= j < segs@.len() ==> #[trigger] segs_view[j] == segs@[j]@);
    }
    if str_eq(h.as_str(), "skills.sh") || str_eq(h.as_str(), "www.skills.sh") {
        if segs.len() < 3 {
            return Err(SkillSourceError::BadSkillsShFormat);
        }
        return Ok(
            SkillSource::SkillsSh {
                owner: segs[0].clone(),
                repo: segs[1].clone(),
                slug: segs[2].clone(),
                source_url: normalized,
            },
        );
    }
    if str_eq(h.as_str(), "github.com") || str_eq(h.as_str(), "www.github.com") {
        if segs.len() < 2 {
            return Err(SkillSourceError::MissingOwnerRepo);
        }
        if segs.len() == 2 {
            return Err(SkillSourceError::MissingSkillPath);
        }
        let repo = strip_git(segs[1].as_str());
        if str_eq(segs[2].as_str(), "tree") || str_eq(segs[2].as_str(), "blob") {
            if segs.len() < 5 {
                return Err(SkillSourceError::BadTreeUrl);
            }
            let mut tail: Vec<String> = Vec::new();
            let mut i: usize = 4;
            proof {
                assert(tail@.map_values(|p: String| p@) =~= segs_view.subrange(4, 4));
            }
            while i < segs.len()
                invariant
                    segs_view == segs@.map_values(|p: String| p@),
                    4 <= i <= segs@.len(),
                    segs@.len() >= 5,
                    tail@.map_values(|p: String| p@) == segs_view.subrange(4, i as int),
                decreases segs@.len() - i,
            {
                proof {
                    assert(segs_view[i as int] == segs@[i as int]@);
                }
                let ghost told = tail@;
                proof {
                    assert(told.map_values(|p: String| p@) == segs_view.subrange(4, i as int));
                }
                tail.push(segs[i].clone());
                proof {
                    assert(tail@ =~= told.push(segs@[i as int]));
                    assert(told.map_values(|p: String| p@).len() == i - 4);
                    assert forall|m: int|
                        0 <= m < tail@.len() implies tail@.map_values(|p: String| p@)[m]
                        == #[trigger] segs_view.subrange(4, i + 1)[m] by {
                        assert(told.len() == i - 4);
                        assert(tail@.map_values(|p: String| p@)[m] == tail@[m]@);
                        if m < told.len() {
                            assert(tail@[m] == told[m]);
                            assert(told.map_values(|p: String| p@)[m] == told[m]@);
                            assert(told[m]@ == segs_view.subrange(4, i as int)[m]);
                        } else {
                            assert(tail@[m] == segs@[i as int]);
                        }
                    }
                    assert(tail@.map_values(|p: String| p@) =~= segs_view.subrange(4, i + 1));
                }
                i = i + 1;
            }
            proof {
                assert(segs_view.subrange(4, segs_view.len() as int) =~= tail@.map_values(
                    |p: String| p@,
                ));
            }
            let path = join_with(&tail, '/');
            return Ok(
                SkillSource::GitHubPath {
                    owner: segs[0].clone(),
                    repo,
                    ref_name: Some(segs[3].clone()),
                    path,
                    source_url: normalized,
                },
            );
        }
        let mut tail: Vec<String> = Vec::new();
        let mut i: usize = 2;
        proof {
            assert(tail@.map_values(|p: String| p@) =~= segs_view.subrange(2, 2));
        }
        while i < segs.len()
            invariant
                segs_view == segs@.map_values(|p: String| p@),
                2 <= i <= segs@.len(),
                segs@.len() >= 3,
                tail@.map_values(|p: String| p@) == segs_view.subrange(2, i as int),
            decreases segs@.len() - i,
        {
            proof {
                assert(segs_view[i as int] == segs@[i as int]@);
            }
            let ghost told = tail@;
            proof {
                assert(told.map_values(|p: String| p@) == segs_view.subrange(2, i as int));
            }
            tail.push(segs[i].clone());
            proof {
                assert(tail@ =~= told.push(segs@[i as int]));
                assert(told.map_values(|p: String| p@).len() == i - 2);
                assert forall|m: int|
                    0 <= m < tail@.len() implies tail@.map_values(|p: String| p@)[m]
                    == #[trigger] segs_view.subrange(2, i + 1)[m] by {
                    assert(told.len() == i - 2);
                    assert(tail@.map_values(|p: String| p@)[m] == tail@[m]@);
                    if m < told.len() {
                        assert(tail@[m] == told[m]);
                        assert(told.map_values(|p: String| p@)[m] == told[m]@);
                        assert(told[m]@ == segs_view.subrange(2, i as int)[m]);
                    } else {
                        assert(tail@[m] == segs@[i as int]);
                    }
                }
                assert(tail@.map_values(|p: String| p@) =~= segs_view.subrange(2, i + 1));
            }
            i = i + 1;
        }
        proof {
            assert(segs_view.subrange(2, segs_view.len() as int) =~= tail@.map_values(
                |p: String| p@,
            ));
        }
        let path = join_with(&tail, '/');
        return Ok(
            SkillSource::GitHubPath {
                owner: segs[0].clone(),
                repo,
                ref_name: None,
                path,
                source_url: normalized,
            },
        );
    }
    Err(SkillSourceError::UnsupportedHost)
}

/// One entry of a repository tree: a path and its object type.
#[derive(Clone, Debug)]
pub struct GitHubTreeItem {
    pub path: String,
    pub item_type: String,
}

/// Lexicographic order on character sequences by code point.
pub open spec fn lex_leq(a: Seq<char>, b: Seq<char>) -> bool
    decreases a.len(),
{
    if a.len() == 0 {
        true
    } else if b.len() == 0 {
        false
    } else if a[0] == b[0] {
        lex_leq(a.drop_first(), b.drop_first())
    } else {
        (a[0] as u32) < (b[0] as u32)
    }
}

/// Compare two strings lexicographically.
pub fn str_leq(a: &str, b: &str) -> (r: bool)
    ensures
        r == lex_leq(a@, b@),
{
    let an = a.unicode_len();
    let bn = b.unicode_len();
    let mut i: usize = 0;
    proof {
        assert(a@.subrange(0, an as int) =~= a@);
        assert(b@.subrange(0, bn as int) =~= b@);
    }
    while i < an && i < bn
        invariant
            an == a@.len(),
            bn == b@.len(),
            0 <= i <= an,
            i <= bn,
            forall|j: int| 0 <= j < i ==> a@[j] == b@[j],
            lex_leq(a@, b@) == lex_leq(
                a@.subrange(i as int, an as int),
                b@.subrange(i as int, bn as int),
            ),
        decreases an - i,
    {
        proof {
            let sa = a@.subrange(i as int, an as int);
            let sb = b@.subrange(i as int, bn as int);
            assert(sa[0] == a@[i as int]);
            assert(sb[0] == b@[i as int]);
            assert(sa.drop_first() =~= a@.subrange(i + 1, an as int));
            assert(sb.drop_first() =~= b@.subrange(i + 1, bn as int));
        }
        let ca = a.get_char(i);
        let cb = b.get_char(i);
        if ca != cb {
            return (ca as u32) < (cb as u32);
        }
        i = i + 1;
    }
    proof {
        let sa = a@.subrange(i as int, an as int);
        let sb = b@.subrange(i as int, bn as int);
        if i == an {
            assert(sa.len() == 0);
        } else {
            assert(sb.len() == 0);
            assert(sa.len() > 0);
        }
    }
    i == an
}

/// `x` inserted before the first larger element of an ordered list.
pub open spec fn spec_insert_sorted(s: Seq<Seq<char>>, x: Seq<char>) -> Seq<Seq<char>>
    decreases s.len(),
{
    if s.len() == 0 {
        seq![x]
    } else if lex_leq(s[0], x) {
        seq![s[0]] + spec_insert_sorted(s.drop_first(), x)
    } else {
        seq![x] + s
    }
}

/// A list sorted by inserting each element in turn.
pub open spec fn spec_sorted(s: Seq<Seq<char>>) -> Seq<Seq<char>>
    decreases s.len(),
{
    if s.len() == 0 {
        Seq::empty()
    } else {
        spec_insert_sorted(spec_sorted(s.drop_last()), s.last())
    }
}

/// Inserting at the position the scan found matches the recursive insert.
proof fn lemma_insert_at(s: Seq<Seq<char>>, x: Seq<char>, pos: int)
    requires
        0 <= pos <= s.len(),
        forall|k: int| 0 <= k < pos ==> lex_leq(#[trigger] s[k], x),
        pos < s.len() ==> !lex_leq(s[pos], x),
    ensures
        spec_insert_sorted(s, x) == s.subrange(0, pos) + seq![x] + s.subrange(pos, s.len() as int),
    decreases s.len(),
{
    if s.len() == 0 {
        assert(spec_insert_sorted(s, x) =~= s.subrange(0, 0) + seq![x] + s.subrange(0, 0));
    } else if pos == 0 {
        assert(spec_insert_sorted(s, x) =~= s.subrange(0, 0) + seq![x] + s.subrange(
            0,
            s.len() as int,
        ));
    } else {
        assert forall|k: int| 0 <= k < pos - 1 implies lex_leq(#[trigger] s.drop_first()[k], x) by {
            assert(s.drop_first()[k] == s[k + 1]);
        }
        if pos - 1 < s.drop_first().len() {
            assert(s.drop_first()[pos - 1] == s[pos as int]);
        }
        lemma_insert_at(s.drop_first(), x, pos - 1);
        assert(spec_insert_sorted(s, x) =~= s.subrange(0, pos) + seq![x] + s.subrange(
            pos,
            s.len() as int,
        )) by {
            assert(s.drop_first().subrange(0, pos - 1) =~= s.subrange(1, pos));
            assert(s.drop_first().subrange(pos - 1, s.drop_first().len() as int) =~= s.subrange(
                pos,
                s.len() as int,
            ));
        }
    }
}

/// Sort strings lexicographically, by insertion.
pub fn sort_strings(v: Vec<String>) -> (r: Vec<String>)
    ensures
        r@.map_values(|p: String| p@) == spec_sorted(v@.map_values(|p: String| p@)),
{
    let ghost sv = v@.map_values(|p: String| p@);
    let mut out: Vec<String> = Vec::new();
    let mut i: usize = 0;
    proof {
        assert(spec_sorted(sv.subrange(0, 0)) =~= Seq::<Seq<char>>::empty());
        assert(out@.map_values(|p: String| p@) =~= Seq::<Seq<char>>::empty());
    }
    while i < v.len()
        invariant
            sv == v@.map_values(|p: String| p@),
            0 <= i <= v@.len(),
            out@.map_values(|p: String| p@) == spec_sorted(sv.subrange(0, i as int)),
        decreases v@.len() - i,
    {
        proof {
            let sub1 = sv.subrange(0, i + 1);
            assert(sub1.drop_last() =~= sv.subrange(0, i as int));
            assert(sub1.last() == sv[i as int]);
            assert(sv[i as int] == v@[i as int]@);
        }
        let x = v[i].clone();
        let ghost before = out@.map_values(|p: String| p@);
        let mut pos: usize = 0;
        while pos < out.len() && str_leq(out[pos].as_str(), x.as_str())
            invariant
                x@ == sv[i as int],
                before == out@.map_values(|p: String| p@),
                0 <= pos <= out@.len(),
                forall|k: int| 0 <= k < pos ==> lex_leq(#[trigger] before[k], x@),
            decreases out@.len() - pos,
        {
            proof {
                assert(before[pos as int] == out@[pos as int]@);
            }
            pos = pos + 1;
        }
        proof {
            if pos < out@.len() {
                assert(before[pos as int] == out@[pos as int]@);
            }
            lemma_insert_at(before, x@, pos as int);
        }
        out.insert(pos, x);
        proof {
            assert(out@.map_values(|p: String| p@) =~= before.subrange(0, pos as int) + seq![
                sv[i as int],
            ] + before.subrange(pos as int, before.len() as int));
        }
        i = i + 1;
    }
    proof {
        assert(sv.subrange(0, sv.len() as int) =~= sv);
    }
    out
}

/// The blob paths under `prefix`, in tree order.
pub open spec fn spec_files_under(items: Seq<(Seq<char>, Seq<char>)>, prefix: Seq<char>) -> Seq<
    Seq<char>,
>
    decreases items.len(),
{
    if items.len() == 0 {
        Seq::empty()
    } else if items.last().1 == "blob"@ && starts_with_seq(items.last().0, prefix) {
        spec_files_under(items.drop_last(), prefix).push(items.last().0)
    } else {
        spec_files_under(items.drop_last(), prefix)
    }
}

/// The view of a tree.
pub open spec fn tree_view(items: Seq<GitHubTreeItem>) -> Seq<(Seq<char>, Seq<char>)> {
    items.map_values(|it: GitHubTreeItem| (it.path@, it.item_type@))
}

/// The files of a skill: every blob under the skill directory, sorted.
pub fn collect_skill_files(tree: &Vec<GitHubTreeItem>, skill_dir: &str) -> (r: Vec<String>)
    ensures
        r@.map_values(|p: String| p@) == spec_sorted(
            spec_files_under(tree_view(tree@), skill_dir@ + "/"@),
        ),
{
    let mut prefix = String::from_str(skill_dir);
    prefix.append("/");
    let ghost tv = tree_view(tree@);
    let mut files: Vec<String> = Vec::new();
    let mut i: usize = 0;
    proof {
        assert(spec_files_under(tv.subrange(0, 0), prefix@) =~= Seq::<Seq<char>>::empty());
        assert(files@.map_values(|p: String| p@) =~= Seq::<Seq<char>>::empty());
    }
    while i < tree.len()
        invariant
            prefix@ == skill_dir@ + "/"@,
            tv == tree_view(tree@),
            0 <= i <= tree@.len(),
            files@.map_values(|p: String| p@) == spec_files_under(
                tv.subrange(0, i as int),
                prefix@,
            ),
        decreases tree@.len() - i,
    {
        proof {
            let sub1 = tv.subrange(0, i + 1);
            assert(sub1.drop_last() =~= tv.subrange(0, i as int));
            assert(sub1.last() == tv[i as int]);
            assert(tv[i as int] == (tree@[i as int].path@, tree@[i as int].item_type@));
        }
        if str_eq(tree[i].item_type.as_str(), "blob") && starts_with(
            tree[i].path.as_str(),
            prefix.as_str(),
        ) {
            files.push(tree[i].path.clone());
            proof {
                assert(files@.map_values(|p: String| p@) =~= files@.drop_last().map_values(
                    |p: String| p@,
                ).push(files@.last()@));
            }
        }
        i = i + 1;
    }
    proof {
        assert(tv.subrange(0, tv.len() as int) =~= tv);
    }
    sort_strings(files)
}

/// A relative path is safe when it has no parent-directory step and does
/// not start at the root: checked over its slash-separated pieces.
pub open spec fn spec_safe_relative(path: Seq<char>) -> bool {
    &&& !(path.len() > 0 && path[0] == '/')
    &&& forall|i: int|
        0 <= i < split_seq(path, '/').len() ==> #[trigger] split_seq(path, '/')[i] != ".."@
}

/// An ASCII letter or digit, the characters a search term is made of.
pub open spec fn is_alnum_char(c: char) -> bool {
    ('a' <= c && c <= 'z') || ('A' <= c && c <= 'Z') || ('0' <= c && c <= '9')
}

/// Index of the first character that is not a letter or digit, or `s.len()`.
pub open spec fn find_non_alnum(s: Seq<char>) -> int
    decreases s.len(),
{
    if s.len() == 0 {
        0
    } else if !is_alnum_char(s[0]) {
        0
    } else {
        1 + find_non_alnum(s.drop_first())
    }
}

pub proof fn lemma_find_non_alnum(s: Seq<char>)
    ensures
        0 <= find_non_alnum(s) <= s.len(),
        find_non_alnum(s) < s.len() ==> !is_alnum_char(s[find_non_alnum(s)]),
        forall|i: int| 0 <= i < find_non_alnum(s) ==> is_alnum_char(#[trigger] s[i]),
    decreases s.len(),
{
    if s.len() != 0 && is_alnum_char(s[0]) {
        lemma_find_non_alnum(s.drop_first());
        assert forall|i: int| 0 <= i < find_non_alnum(s) implies is_alnum_char(#[trigger] s[i]) by {
            if i > 0 {
                assert(s[i] == s.drop_first()[i - 1]);
            }
        }
    }
}

/// The search terms of a query: its maximal ASCII alphanumeric runs,
/// lowercased, keeping only those of three or more characters.
pub open spec fn spec_tokenize(s: Seq<char>) -> Seq<Seq<char>>
    decreases s.len(),
{
    if s.len() == 0 {
        Seq::empty()
    } else {
        let i = find_non_alnum(s);
        if i == 0 {
            spec_tokenize(s.drop_first())
        } else if 0 < i <= s.len() {
            let tok = lower_seq(s.subrange(0, i));
            let rest = spec_tokenize(s.subrange(i, s.len() as int));
            if tok.len() >= 3 {
                seq![tok] + rest
            } else {
                rest
            }
        } else {
            Seq::empty()
        }
    }
}

/// Whether `c` is an ASCII letter or digit.
fn is_alnum_exec(c: char) -> (r: bool)
    ensures
        r == is_alnum_char(c),
{
    ('a' <= c && c <= 'z') || ('A' <= c && c <= 'Z') || ('0' <= c && c <= '9')
}

/// Tokenize a query into lowercased search terms.
pub fn tokenize(input: &str) -> (r: Vec<String>)
    ensures
        r@.map_values(|p: String| p@) == spec_tokenize(input@),
{
    let n = input.unicode_len();
    let mut out: Vec<String> = Vec::new();
    let mut p: usize = 0;
    proof {
        assert(input@.subrange(0, n as int) =~= input@);
        assert(out@.map_values(|t: String| t@) =~= Seq::<Seq<char>>::empty());
        assert(Seq::<Seq<char>>::empty() + spec_tokenize(input@.subrange(0, n as int))
            =~= spec_tokenize(input@));
    }
    while p < n
        invariant
            n == input@.len(),
            0 <= p <= n,
            out@.map_values(|t: String| t@) + spec_tokenize(
                input@.subrange(p as int, n as int),
            ) =~= spec_tokenize(input@),
        decreases n - p,
    {
        let ghost suffix = input@.subrange(p as int, n as int);
        let c = input.get_char(p);
        let alnum = ('a' <= c && c <= 'z') || ('A' <= c && c <= 'Z') || ('0' <= c && c <= '9');
        if !alnum {
            proof {
                assert(suffix[0] == input@[p as int]);
                assert(find_non_alnum(suffix) == 0);
                assert(suffix.drop_first() =~= input@.subrange(p + 1, n as int));
            }
            p = p + 1;
        } else {
            // Scan the alphanumeric run.
            let mut q: usize = p;
            while q < n && is_alnum_exec(input.get_char(q))
                invariant
                    n == input@.len(),
                    0 <= p <= q <= n,
                    forall|j: int| p <= j < q ==> is_alnum_char(#[trigger] input@[j]),
                decreases n - q,
            {
                q = q + 1;
            }
            proof {
                assert forall|j: int| 0 <= j < q - p implies is_alnum_char(
                    #[trigger] suffix[j],
                ) by {
                    assert(suffix[j] == input@[p + j]);
                }
                if q < n {
                    assert(suffix[q - p] == input@[q as int]);
                }
                lemma_find_non_alnum_at(suffix, q - p);
                assert(suffix.subrange(0, q - p) =~= input@.subrange(p as int, q as int));
                assert(suffix.subrange(q - p, suffix.len() as int) =~= input@.subrange(
                    q as int,
                    n as int,
                ));
            }
            let run = input.substring_char(p, q);
            let tok = to_ascii_lowercase(run);
            if tok.as_str().unicode_len() >= 3 {
                let ghost told = out@;
                out.push(tok);
                proof {
                    assert(out@ =~= told.push(out@.last()));
                    assert(out@.map_values(|t: String| t@) =~= told.map_values(|t: String| t@).push(
                        out@.last()@,
                    ));
                    assert(out@.map_values(|t: String| t@) + spec_tokenize(
                        input@.subrange(q as int, n as int),
                    ) =~= spec_tokenize(input@));
                }
            }
            p = q;
        }
    }
    proof {
        assert(input@.subrange(n as int, n as int) =~= Seq::<char>::empty());
        assert(out@.map_values(|t: String| t@) + Seq::<Seq<char>>::empty() =~= out@.map_values(
            |t: String| t@,
        ));
    }
    out
}

/// `find_non_alnum` returns the known end of an alphanumeric run.
proof fn lemma_find_non_alnum_at(s: Seq<char>, k: int)
    requires
        0 <= k <= s.len(),
        forall|j: int| 0 <= j < k ==> is_alnum_char(#[trigger] s[j]),
        k < s.len() ==> !is_alnum_char(s[k]),
    ensures
        find_non_alnum(s) == k,
    decreases s.len(),
{
    if k > 0 {
        assert forall|j: int| 0 <= j < k - 1 implies is_alnum_char(
            #[trigger] s.drop_first()[j],
        ) by {
            assert(s.drop_first()[j] == s[j + 1]);
        }
        if k - 1 < s.drop_first().len() {
            assert(s.drop_first()[k - 1] == s[k as int]);
        }
        lemma_find_non_alnum_at(s.drop_first(), k - 1);
    }
}

/// A text cut at `max` characters, with a truncation marker appended when
/// anything was cut.
pub open spec fn spec_trim_chars(s: Seq<char>, max: int) -> Seq<char> {
    if s.len() <= max {
        s
    } else {
        s.subrange(0, max) + "\n...[truncated]"@
    }
}

/// Cut a text at a character budget.
pub fn trim_chars(input: &str, max_chars: usize) -> (r: String)
    ensures
        r@ == spec_trim_chars(input@, max_chars as int),
{
    let n = input.unicode_len();
    if n <= max_chars {
        return String::from_str(input);
    }
    let mut out = String::from_str(input.substring_char(0, max_chars));
    out.append("\n...[truncated]");
    out
}

/// Check that a skill file's relative path stays inside its directory.
pub fn ensure_safe_relative_path(path: &str) -> (r: bool)
    ensures
        r == spec_safe_relative(path@),
{
    let n = path.unicode_len();
    if n > 0 && path.get_char(0) == '/' {
        return false;
    }
    let pieces = split_str(path, '/');
    let ghost pv = pieces@.map_values(|p: String| p@);
    let mut i: usize = 0;
    while i < pieces.len()
        invariant
            !(path@.len() > 0 && path@[0] == '/'),
            pv == pieces@.map_values(|p: String| p@),
            pv == split_seq(path@, '/'),
            0 <= i <= pieces@.len(),
            forall|j: int| 0 <= j < i ==> #[trigger] pv[j] != ".."@,
        decreases pieces@.len() - i,
    {
        proof {
            assert(pv[i as int] == pieces@[i as int]@);
        }
        if str_eq(pieces[i].as_str(), "..") {
            return false;
        }
        i = i + 1;
    }
    true
}


/// The search haystack of one skill: its lowercased name and description
/// and a budgeted preview of its lowercased content, space-separated.
pub open spec fn spec_haystack(skill: LoadedSkill) -> Seq<char> {
    lower_seq(skill.meta.name@) + " "@ + lower_seq(skill.meta.description@) + " "@
        + spec_trim_chars(lower_seq(skill.content@), 1200)
}

/// How many terms occur in the haystack.
pub open spec fn spec_score(terms: Seq<Seq<char>>, hay: Seq<char>) -> int
    decreases terms.len(),
{
    if terms.len() == 0 {
        0
    } else {
        spec_score(terms.drop_last(), hay) + if contains_seq(hay, terms.last()) {
            1int
        } else {
            0int
        }
    }
}

/// Build one skill's haystack.
fn haystack(skill: &LoadedSkill) -> (r: String)
    ensures
        r@ == spec_haystack(*skill),
{
    let mut out = to_ascii_lowercase(skill.meta.name.as_str());
    out.append(" ");
    out.append(to_ascii_lowercase(skill.meta.description.as_str()).as_str());
    out.append(" ");
    out.append(trim_chars(to_ascii_lowercase(skill.content.as_str()).as_str(), 1200).as_str());
    out
}

/// Score one skill against the terms.
fn score_skill(terms: &Vec<String>, skill: &LoadedSkill) -> (r: usize)
    ensures
        r == spec_score(terms@.map_values(|t: String| t@), spec_haystack(*skill)),
        r <= terms@.len(),
{
    let hay = haystack(skill);
    let ghost tv = terms@.map_values(|t: String| t@);
    let mut n: usize = 0;
    let mut i: usize = 0;
    proof {
        assert(spec_score(tv.subrange(0, 0), hay@) == 0);
    }
    while i < terms.len()
        invariant
            hay@ == spec_haystack(*skill),
            tv == terms@.map_values(|t: String| t@),
            0 <= i <= terms@.len(),
            n <= i,
            n == spec_score(tv.subrange(0, i as int), hay@),
        decreases terms@.len() - i,
    {
        proof {
            let sub1 = tv.subrange(0, i + 1);
            assert(sub1.drop_last() =~= tv.subrange(0, i as int));
            assert(sub1.last() == tv[i as int]);
            assert(tv[i as int] == terms@[i as int]@);
        }
        if contains_str(hay.as_str(), terms[i].as_str()) {
            n = n + 1;
        }
        i = i + 1;
    }
    proof {
        assert(tv.subrange(0, tv.len() as int) =~= tv);
    }
    n
}

/// Whether some skill scores above zero.
pub open spec fn spec_any_positive(skills: Seq<LoadedSkill>, terms: Seq<Seq<char>>) -> bool {
    exists|i: int|
        0 <= i < skills.len() && spec_score(terms, spec_haystack(#[trigger] skills[i])) > 0
}

/// One of the stored skills, with a positive score against the terms.
pub open spec fn spec_positive_member(
    s: LoadedSkill,
    skills: Seq<LoadedSkill>,
    terms: Seq<Seq<char>>,
) -> bool {
    exists|i: int|
        0 <= i < skills.len() && s == #[trigger] skills[i] && spec_score(
            terms,
            spec_haystack(skills[i]),
        ) > 0
}

/// Pick up to three skills for the prompt.  With no skill matching any
/// search term the first up to three skills are kept in their stored
/// order; otherwise only matching skills are kept, best score first, ties
/// by stored order.
pub fn select_relevant_skills(skills: &Vec<LoadedSkill>, query: &str) -> (r: Vec<LoadedSkill>)
    ensures
        ({
            let terms = spec_tokenize(query@);
            &&& r@.len() <= MAX_SKILLS_IN_PROMPT
            &&& r@.len() <= skills@.len()
            &&& (!spec_any_positive(skills@, terms) ==> r@ =~= skills@.subrange(
                0,
                if skills@.len() < MAX_SKILLS_IN_PROMPT {
                    skills@.len() as int
                } else {
                    MAX_SKILLS_IN_PROMPT as int
                },
            ))
            &&& (spec_any_positive(skills@, terms) ==> (forall|k: int|
                0 <= k < r@.len() ==> spec_positive_member(#[trigger] r@[k], skills@, terms)))
            &&& (spec_any_positive(skills@, terms) ==> r@.len() >= 1)
        }),
{
    let terms = tokenize(query);
    let ghost tv = spec_tokenize(query@);
    // Score every skill once.
    let mut scores: Vec<usize> = Vec::new();
    let mut i: usize = 0;
    while i < skills.len()
        invariant
            tv == spec_tokenize(query@),
            terms@.map_values(|t: String| t@) == tv,
            0 <= i <= skills@.len(),
            scores@.len() == i,
            forall|j: int|
                0 <= j < i ==> #[trigger] scores@[j] == spec_score(
                    tv,
                    spec_haystack(skills@[j]),
                ),
        decreases skills@.len() - i,
    {
        let sc = score_skill(&terms, &skills[i]);
        scores.push(sc);
        i = i + 1;
    }
    // Greedily pick the best-scoring unused skill with a positive score.
    let mut used: Vec<bool> = Vec::new();
    let mut i2: usize = 0;
    while i2 < skills.len()
        invariant
            0 <= i2 <= skills@.len(),
            used@.len() == i2,
            forall|j: int| 0 <= j < i2 ==> #[trigger] used@[j] == false,
        decreases skills@.len() - i2,
    {
        used.push(false);
        i2 = i2 + 1;
    }
    let mut selected: Vec<LoadedSkill> = Vec::new();
    let mut round: usize = 0;
    let max_rounds = if skills.len() < MAX_SKILLS_IN_PROMPT {
        skills.len()
    } else {
        MAX_SKILLS_IN_PROMPT
    };
    while round < max_rounds
        invariant
            tv == spec_tokenize(query@),
            scores@.len() == skills@.len(),
            used@.len() == skills@.len(),
            max_rounds <= MAX_SKILLS_IN_PROMPT,
            max_rounds <= skills@.len(),
            forall|j: int|
                0 <= j < skills@.len() ==> #[trigger] scores@[j] == spec_score(
                    tv,
                    spec_haystack(skills@[j]),
                ),
            0 <= round <= max_rounds,
            selected@.len() <= round,
            selected@.len() == 0 ==> (forall|j: int|
                0 <= j < used@.len() ==> #[trigger] used@[j] == false),
            round > 0 ==> selected@.len() >= 1,
            forall|k: int|
                0 <= k < selected@.len() ==> spec_positive_member(
                    #[trigger] selected@[k],
                    skills@,
                    tv,
                ),
        ensures
            selected@.len() <= max_rounds,
            forall|k: int|
                0 <= k < selected@.len() ==> spec_positive_member(
                    #[trigger] selected@[k],
                    skills@,
                    tv,
                ),
            selected@.len() == 0 ==> max_rounds == 0 || !spec_any_positive(skills@, tv),
            max_rounds > 0 && spec_any_positive(skills@, tv) ==> selected@.len() >= 1,
        decreases max_rounds - round,
    {
        let mut best: usize = 0;
        let mut best_score: usize = 0;
        let mut j: usize = 0;
        while j < skills.len()
            invariant
                scores@.len() == skills@.len(),
                used@.len() == skills@.len(),
                0 <= j <= skills@.len(),
                best_score > 0 ==> best < skills@.len() && scores@[best as int] == best_score
                    && used@[best as int] == false,
                forall|j2: int|
                    0 <= j2 < j ==> #[trigger] used@[j2] == true || scores@[j2] <= best_score,
            decreases skills@.len() - j,
        {
            if !used[j] && scores[j] > best_score {
                best = j;
                best_score = scores[j];
            }
            j = j + 1;
        }
        if best_score == 0 {
            proof {
                if selected@.len() == 0 {
                    assert forall|i3: int|
                        0 <= i3 < skills@.len() implies !(spec_score(
                        tv,
                        spec_haystack(#[trigger] skills@[i3]),
                    ) > 0) by {
                        assert(used@[i3] == false);
                        assert(scores@[i3] <= best_score);
                    }
                }
            }
            break;
        }
        let ghost uold = used@;
        used.set(best, true);
        proof {
            assert(used@ =~= uold.update(best as int, true));
        }
        let picked = clone_skill(&skills[best]);
        proof {
            assert(picked == skills@[best as int]);
            assert(spec_score(tv, spec_haystack(skills@[best as int])) > 0);
            assert(spec_positive_member(picked, skills@, tv));
        }
        selected.push(picked);
        round = round + 1;
        proof {
            assert forall|k: int|
                0 <= k < selected@.len() implies spec_positive_member(
                #[trigger] selected@[k],
                skills@,
                tv,
            ) by {
                if k == selected@.len() - 1 {
                    assert(selected@[k] == selected@.last());
                }
            }
        }
    }
    if selected.len() == 0 {
        // Nothing matched: fall back to the first skills in stored order.
        proof {
            if max_rounds == 0 {
                assert(skills@.len() == 0);
            }
        }
        let mut out: Vec<LoadedSkill> = Vec::new();
        let mut k: usize = 0;
        let limit = if skills.len() < MAX_SKILLS_IN_PROMPT {
            skills.len()
        } else {
            MAX_SKILLS_IN_PROMPT
        };
        while k < limit
            invariant
                limit <= skills@.len(),
                0 <= k <= limit,
                out@ =~= skills@.subrange(0, k as int),
            decreases limit - k,
        {
            let ghost oold = out@;
            out.push(clone_skill(&skills[k]));
            proof {
                assert(out@ =~= oold.push(skills@[k as int]));
                assert(out@ =~= skills@.subrange(0, k + 1));
            }
            k = k + 1;
        }
        return out;
    }
    proof {
        if !spec_any_positive(skills@, tv) {
            assert(spec_positive_member(selected@[0], skills@, tv));
            let w = choose|i3: int|
                0 <= i3 < skills@.len() && selected@[0] == #[trigger] skills@[i3] && spec_score(
                    tv,
                    spec_haystack(skills@[i3]),
                ) > 0;
            assert(spec_score(tv, spec_haystack(skills@[w])) > 0);
        }
    }
    selected
}

/// Copy one skill record field by field.
fn clone_skill(s: &LoadedSkill) -> (r: LoadedSkill)
    ensures
        r == *s,
{
    LoadedSkill {
        meta: ImportedSkillMeta {
            name: s.meta.name.clone(),
            title: s.meta.title.clone(),
            description: s.meta.description.clone(),
            source_url: s.meta.source_url.clone(),
            repository: s.meta.repository.clone(),
            repository_ref: s.meta.repository_ref.clone(),
            repository_path: s.meta.repository_path.clone(),
            installed_at_utc: s.meta.installed_at_utc.clone(),
        },
        content: s.content.clone(),
    }
}

/// The lines one selected skill contributes to the prompt context.
pub open spec fn spec_skill_lines(skill: LoadedSkill) -> Seq<Seq<char>> {
    let base = seq![
        Seq::<char>::empty(),
        "Skill: "@ + skill.meta.title@ + " ("@ + skill.meta.name@ + ")"@,
    ];
    let with_desc = if trim_seq(skill.meta.description@).len() > 0 {
        base.push("Description: "@ + trim_seq(skill.meta.description@))
    } else {
        base
    };
    with_desc + seq![
        "Source: "@ + skill.meta.source_url@,
        "Instructions:"@,
        spec_trim_chars(trim_seq(skill.content@), 3000),
    ]
}

/// The lines of the whole context block for the selected skills.
pub open spec fn spec_context_lines(selected: Seq<LoadedSkill>) -> Seq<Seq<char>>
    decreases selected.len(),
{
    let header = seq![
        "Imported skills are available for this request."@,
        "When a request matches a skill, follow that SKILL.md workflow and constraints."@,
    ];
    if selected.len() == 0 {
        header
    } else {
        spec_context_lines(selected.drop_last()) + spec_skill_lines(selected.last())
    }
}

/// The rendered context for a selection: its lines joined by line breaks,
/// cut at the prompt budget.
pub open spec fn spec_prompt_context(selected: Seq<LoadedSkill>) -> Seq<char> {
    spec_trim_chars(join_seq(spec_context_lines(selected), '\n'), 12000)
}

/// Render the lines one skill contributes.
fn push_skill_lines(lines: &mut Vec<String>, skill: &LoadedSkill)
    ensures
        final(lines)@.map_values(|p: String| p@) == old(lines)@.map_values(|p: String| p@)
            + spec_skill_lines(*skill),
{
    let ghost before = lines@.map_values(|p: String| p@);
    lines.push(String::new());
    let mut title_line = String::from_str("Skill: ");
    title_line.append(skill.meta.title.as_str());
    title_line.append(" (");
    title_line.append(skill.meta.name.as_str());
    title_line.append(")");
    lines.push(title_line);
    let desc = trim_str(skill.meta.description.as_str());
    if desc.as_str().unicode_len() > 0 {
        let mut desc_line = String::from_str("Description: ");
        desc_line.append(desc.as_str());
        lines.push(desc_line);
    }
    let mut source_line = String::from_str("Source: ");
    source_line.append(skill.meta.source_url.as_str());
    lines.push(source_line);
    lines.push(String::from_str("Instructions:"));
    lines.push(trim_chars(trim_str(skill.content.as_str()).as_str(), 3000));
    proof {
        assert(lines@.map_values(|p: String| p@) =~= before + spec_skill_lines(*skill));
    }
}

/// Build the skills block of a prompt: empty without skills; otherwise the
/// rendering of the selection the relevance rules pick from these skills
/// for this query — a header and the lines of up to three skills, joined
/// by line breaks and cut at the prompt budget.  With no skill matching
/// any search term the selection is the first up to three skills; with a
/// match, every selected skill is one of the inputs scoring above zero.
pub fn build_prompt_context(skills: &Vec<LoadedSkill>, query: &str) -> (r: String)
    ensures
        skills@.len() == 0 ==> r@ == Seq::<char>::empty(),
        skills@.len() > 0 ==> exists|selected: Seq<LoadedSkill>|
            {
                let terms = spec_tokenize(query@);
                &&& #[trigger] spec_prompt_context(selected) == r@
                &&& 1 <= selected.len() <= MAX_SKILLS_IN_PROMPT
                &&& selected.len() <= skills@.len()
                &&& (!spec_any_positive(skills@, terms) ==> selected =~= skills@.subrange(
                    0,
                    if skills@.len() < MAX_SKILLS_IN_PROMPT {
                        skills@.len() as int
                    } else {
                        MAX_SKILLS_IN_PROMPT as int
                    },
                ))
                &&& (spec_any_positive(skills@, terms) ==> (forall|k: int|
                    0 <= k < selected.len() ==> spec_positive_member(
                        #[trigger] selected[k],
                        skills@,
                        terms,
                    )))
            },
{
    if skills.len() == 0 {
        return String::new();
    }
    let selected = select_relevant_skills(skills, query);
    let mut lines: Vec<String> = Vec::new();
    lines.push(String::from_str("Imported skills are available for this request."));
    lines.push(
        String::from_str(
            "When a request matches a skill, follow that SKILL.md workflow and constraints.",
        ),
    );
    let mut i: usize = 0;
    proof {
        assert(lines@.map_values(|p: String| p@) =~= spec_context_lines(
            selected@.subrange(0, 0),
        ));
    }
    while i < selected.len()
        invariant
            0 <= i <= selected@.len(),
            selected@.len() <= MAX_SKILLS_IN_PROMPT,
            selected@.len() >= 1,
            selected@.len() <= skills@.len(),
            lines@.map_values(|p: String| p@) == spec_context_lines(
                selected@.subrange(0, i as int),
            ),
        decreases selected@.len() - i,
    {
        proof {
            let sub1 = selected@.subrange(0, i + 1);
            assert(sub1.drop_last() =~= selected@.subrange(0, i as int));
            assert(sub1.last() == selected@[i as int]);
        }
        push_skill_lines(&mut lines, &selected[i]);
        i = i + 1;
    }
    proof {
        assert(selected@.subrange(0, selected@.len() as int) =~= selected@);
    }
    let joined = join_with(&lines, '\n');
    let out = trim_chars(joined.as_str(), 12000);
    proof {
        assert(spec_prompt_context(selected@) == out@);
    }
    out
}

/// The title and description of a skill's front matter, when the text
/// opens with a fence: the `name:` and `description:` values, with
/// `short-description:` as the description fallback, each unquoted.
pub open spec fn spec_skill_front_matter(text: Seq<char>) -> (Option<Seq<char>>, Option<
    Seq<char>,
>) {
    let fm = crate::recipes::spec_split_front_matter(text).0;
    let name = crate::recipes::spec_fm_get(fm, "name"@);
    let description = match crate::recipes::spec_fm_get(fm, "description"@) {
        Some(d) => Some(d),
        None => crate::recipes::spec_fm_get(fm, "short-description"@),
    };
    (name, description)
}

/// Read the title and description out of a skill text's front matter.
pub fn parse_frontmatter(markdown: &str) -> (r: (Option<String>, Option<String>))
    ensures
        ({
            let (name, description) = spec_skill_front_matter(markdown@);
            &&& (r.0 is Some <==> name is Some)
            &&& (r.0 is Some ==> r.0->Some_0@ == name->Some_0)
            &&& (r.1 is Some <==> description is Some)
            &&& (r.1 is Some ==> r.1->Some_0@ == description->Some_0)
        }),
{
    let (entries, _body) = crate::recipes::split_front_matter(markdown);
    let name = crate::recipes::fm_get(&entries, "name");
    let description = match crate::recipes::fm_get(&entries, "description") {
        Some(d) => Some(d),
        None => crate::recipes::fm_get(&entries, "short-description"),
    };
    (name, description)
}

/// The first content line of a skill text: the first non-blank line that
/// is not a heading, a fence, or a front-matter key, cut to a short
/// description length.
pub open spec fn spec_infer_description(lines: Seq<Seq<char>>) -> Seq<char>
    decreases lines.len(),
{
    if lines.len() == 0 {
        Seq::empty()
    } else {
        let t = trim_seq(lines[0]);
        if t.len() == 0 || t[0] == '#' || t == "---"@ || starts_with_seq(t, "name:"@)
            || starts_with_seq(t, "description:"@) {
            spec_infer_description(lines.drop_first())
        } else {
            spec_trim_chars(t, 180)
        }
    }
}

/// Infer a short description from a skill text's first content line.
pub fn infer_description(markdown: &str) -> (r: String)
    ensures
        r@ == spec_infer_description(split_seq(markdown@, '\n')),
{
    let lines = split_str(markdown, '\n');
    let ghost lv = lines@.map_values(|p: String| p@);
    let mut i: usize = 0;
    proof {
        assert(lv.subrange(0, lv.len() as int) =~= lv);
    }
    while i < lines.len()
        invariant
            lv == lines@.map_values(|p: String| p@),
            lv == split_seq(markdown@, '\n'),
            0 <= i <= lines@.len(),
            spec_infer_description(lv) == spec_infer_description(
                lv.subrange(i as int, lv.len() as int),
            ),
        decreases lines@.len() - i,
    {
        proof {
            let sub = lv.subrange(i as int, lv.len() as int);
            assert(sub[0] == lv[i as int]);
            assert(lv[i as int] == lines@[i as int]@);
            assert(sub.drop_first() =~= lv.subrange(i + 1, lv.len() as int));
        }
        let t = trim_str(lines[i].as_str());
        let skip = t.as_str().unicode_len() == 0 || t.as_str().get_char(0) == '#' || str_eq(
            t.as_str(),
            "---",
        ) || starts_with(t.as_str(), "name:") || starts_with(t.as_str(), "description:");
        if !skip {
            return trim_chars(t.as_str(), 180);
        }
        i = i + 1;
    }
    proof {
        assert(lv.subrange(lv.len() as int, lv.len() as int) =~= Seq::<Seq<char>>::empty());
    }
    String::new()
}

} // verus!
