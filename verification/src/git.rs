//! Parsing of git's porcelain output, and the input checks of the git
//! commands.
//!
//! Running git itself is a request/response call at the runtime's edge; the
//! library owns what comes before and after the call: deciding whether an
//! input is acceptable, and turning the tool's text output into structured
//! values.

use vstd::prelude::*;
use vstd::string::StrSliceExecFns;
use crate::text::contains_chars;
use crate::text::contains_sub;
use crate::text::skip_leading;
use crate::text::spec_lines;
use crate::text::split_lines;
use crate::text::starts_with_chars;
use crate::text::str_trim;
use crate::text::strip_leading;
use crate::text::trim_spec;
use crate::text::views_of;

verus! {

broadcast use vstd::string::group_string_axioms;

/// One changed file in the working tree or the index.
#[derive(Clone)]
pub struct GitFileStatus {
    pub path: String,
    pub status: String,
    pub staged: bool,
}

/// The parsed `status --porcelain=v1` output.
pub struct GitStatus {
    pub staged: Vec<GitFileStatus>,
    pub unstaged: Vec<GitFileStatus>,
    pub untracked: Vec<GitFileStatus>,
    pub has_conflicts: bool,
}

/// One commit of the log, as the fixed `%h|%s|%an|%ar` format delivers it.
pub struct GitCommit {
    pub hash: String,
    pub message: String,
    pub author: String,
    pub date: String,
}

/// One branch of the `branch -a` listing.
pub struct GitBranch {
    pub name: String,
    pub is_current: bool,
    pub is_remote: bool,
}

/// The parsed `branch -a --no-color` output.
pub struct GitBranches {
    pub current: String,
    pub local: Vec<GitBranch>,
    pub remote: Vec<GitBranch>,
}

/// A repository root is one that holds a `.git` entry; the filesystem probe
/// itself happens at the runtime's edge and its result is passed in.
pub fn is_git_repo(git_dir_exists: bool) -> (r: bool)
    ensures
        r == git_dir_exists,
{
    git_dir_exists
}

// ---------------------------------------------------------------------------
// status --porcelain=v1
// ---------------------------------------------------------------------------
/// What one porcelain line contributes to the staged list: lines shorter
/// than three characters are skipped, untracked (`?`) lines belong to the
/// untracked list, and a non-blank index status stages the path.
pub open spec fn line_staged(line: Seq<char>) -> Seq<(Seq<char>, char)> {
    if line.len() < 3 {
        Seq::empty()
    } else if line[0] == '?' {
        Seq::empty()
    } else if line[0] != ' ' {
        seq![(line.subrange(3, line.len() as int), line[0])]
    } else {
        Seq::empty()
    }
}

/// What one porcelain line contributes to the unstaged list: a non-blank,
/// non-`?` worktree status on a tracked line.
pub open spec fn line_unstaged(line: Seq<char>) -> Seq<(Seq<char>, char)> {
    if line.len() < 3 {
        Seq::empty()
    } else if line[0] == '?' {
        Seq::empty()
    } else if line[1] != ' ' && line[1] != '?' {
        seq![(line.subrange(3, line.len() as int), line[1])]
    } else {
        Seq::empty()
    }
}

/// What one porcelain line contributes to the untracked list.
pub open spec fn line_untracked(line: Seq<char>) -> Seq<(Seq<char>, char)> {
    if line.len() >= 3 && line[0] == '?' {
        seq![(line.subrange(3, line.len() as int), '?')]
    } else {
        Seq::empty()
    }
}

/// Does one porcelain line report a conflict (`U` in either column)?
pub open spec fn line_conflict(line: Seq<char>) -> bool {
    line.len() >= 3 && (line[0] == 'U' || line[1] == 'U')
}

pub open spec fn staged_of(lines: Seq<Seq<char>>) -> Seq<(Seq<char>, char)>
    decreases lines.len(),
{
    if lines.len() == 0 {
        Seq::empty()
    } else {
        staged_of(lines.drop_last()) + line_staged(lines.last())
    }
}

pub open spec fn unstaged_of(lines: Seq<Seq<char>>) -> Seq<(Seq<char>, char)>
    decreases lines.len(),
{
    if lines.len() == 0 {
        Seq::empty()
    } else {
        unstaged_of(lines.drop_last()) + line_unstaged(lines.last())
    }
}

pub open spec fn untracked_of(lines: Seq<Seq<char>>) -> Seq<(Seq<char>, char)>
    decreases lines.len(),
{
    if lines.len() == 0 {
        Seq::empty()
    } else {
        untracked_of(lines.drop_last()) + line_untracked(lines.last())
    }
}

pub open spec fn conflicts_of(lines: Seq<Seq<char>>) -> bool
    decreases lines.len(),
{
    if lines.len() == 0 {
        false
    } else {
        conflicts_of(lines.drop_last()) || line_conflict(lines.last())
    }
}

/// Does a vector of file statuses carry exactly a model list of
/// (path, status character) pairs, all with one staged flag?
pub open spec fn statuses_match(
    v: Seq<GitFileStatus>,
    model: Seq<(Seq<char>, char)>,
    staged_flag: bool,
) -> bool {
    &&& v.len() == model.len()
    &&& forall|i: int|
        0 <= i < v.len() ==> (#[trigger] v[i]).path@ == model[i].0 && v[i].status@ == seq![
            model[i].1,
        ] && v[i].staged == staged_flag
}

/// Parse `git status --porcelain=v1` output: each line's first two
/// characters are the index and worktree status columns, the path starts at
/// the fourth; untracked lines go to their own list; a `U` in either column
/// flags a conflict.
pub fn parse_status(output: &str) -> (r: GitStatus)
    ensures
        statuses_match(r.staged@, staged_of(spec_lines(output@)), true),
        statuses_match(r.unstaged@, unstaged_of(spec_lines(output@)), false),
        statuses_match(r.untracked@, untracked_of(spec_lines(output@)), false),
        r.has_conflicts == conflicts_of(spec_lines(output@)),
{
    let lines = split_lines(output);
    let ghost lv = views_of(lines@);
    let mut staged: Vec<GitFileStatus> = Vec::new();
    let mut unstaged: Vec<GitFileStatus> = Vec::new();
    let mut untracked: Vec<GitFileStatus> = Vec::new();
    let mut has_conflicts = false;
    let mut i: usize = 0;
    proof {
        assert(lv.take(0) =~= Seq::<Seq<char>>::empty());
    }
    while i < lines.len()
        invariant
            lv == views_of(lines@),
            lv.len() == lines@.len(),
            i <= lines@.len(),
            statuses_match(staged@, staged_of(lv.take(i as int)), true),
            statuses_match(unstaged@, unstaged_of(lv.take(i as int)), false),
            statuses_match(untracked@, untracked_of(lv.take(i as int)), false),
            has_conflicts == conflicts_of(lv.take(i as int)),
        decreases lines@.len() - i,
    {
        let ghost pre_take = lv.take(i as int);
        let line: &str = lines[i].as_str();
        proof {
            assert(line@ == lv[i as int]);
            assert(lv.take(i + 1).drop_last() =~= pre_take);
            assert(lv.take(i + 1).last() == lv[i as int]);
        }
        let n = line.unicode_len();
        if n >= 3 {
            let index_status = line.get_char(0);
            let worktree_status = line.get_char(1);
            let path: &str = line.substring_char(3, n);
            proof {
                assert(path@ =~= line@.subrange(3, line@.len() as int));
            }
            if index_status == 'U' || worktree_status == 'U' {
                has_conflicts = true;
            }
            if index_status == '?' {
                let st = line.substring_char(0, 1);
                proof {
                    assert(st@ =~= seq!['?']);
                }
                untracked.push(
                    GitFileStatus { path: path.to_owned(), status: st.to_owned(), staged: false },
                );
            } else {
                if index_status != ' ' {
                    let st = line.substring_char(0, 1);
                    proof {
                        assert(st@ =~= seq![line@[0]]);
                    }
                    staged.push(
                        GitFileStatus {
                            path: path.to_owned(),
                            status: st.to_owned(),
                            staged: true,
                        },
                    );
                }
                if worktree_status != ' ' && worktree_status != '?' {
                    let st = line.substring_char(1, 2);
                    proof {
                        assert(st@ =~= seq![line@[1]]);
                    }
                    unstaged.push(
                        GitFileStatus {
                            path: path.to_owned(),
                            status: st.to_owned(),
                            staged: false,
                        },
                    );
                }
            }
        }
        proof {
            assert(staged_of(lv.take(i + 1)) =~= staged_of(pre_take) + line_staged(lv[i as int]));
            assert(unstaged_of(lv.take(i + 1)) =~= unstaged_of(pre_take) + line_unstaged(
                lv[i as int],
            ));
            assert(untracked_of(lv.take(i + 1)) =~= untracked_of(pre_take) + line_untracked(
                lv[i as int],
            ));
        }
        i += 1;
    }
    proof {
        assert(lv.take(lv.len() as int) =~= lv);
    }
    GitStatus { staged, unstaged, untracked, has_conflicts }
}

// ---------------------------------------------------------------------------
// branch -a --no-color
// ---------------------------------------------------------------------------
/// The branch name of one listing line: leading `*` markers stripped, then
/// trimmed.
pub open spec fn branch_name_of(line: Seq<char>) -> Seq<char> {
    trim_spec(skip_leading(line, '*'))
}

/// The current branch is flagged by a leading `*`.
pub open spec fn line_is_current(line: Seq<char>) -> bool {
    line.len() > 0 && line[0] == '*'
}

/// Lines naming the detached `HEAD` pointer are skipped.
pub open spec fn line_skipped(line: Seq<char>) -> bool {
    contains_sub(branch_name_of(line), "HEAD"@)
}

/// A `remotes/`-prefixed name lists a remote branch.
pub open spec fn line_is_remote(line: Seq<char>) -> bool {
    !line_skipped(line) && branch_name_of(line).len() >= 8 && branch_name_of(line).subrange(0, 8)
        == "remotes/"@
}

pub open spec fn line_is_local(line: Seq<char>) -> bool {
    !line_skipped(line) && !line_is_remote(line)
}

pub open spec fn locals_of(lines: Seq<Seq<char>>) -> Seq<(Seq<char>, bool)>
    decreases lines.len(),
{
    if lines.len() == 0 {
        Seq::empty()
    } else {
        locals_of(lines.drop_last()) + (if line_is_local(lines.last()) {
            seq![(branch_name_of(lines.last()), line_is_current(lines.last()))]
        } else {
            Seq::empty()
        })
    }
}

pub open spec fn remotes_of(lines: Seq<Seq<char>>) -> Seq<Seq<char>>
    decreases lines.len(),
{
    if lines.len() == 0 {
        Seq::empty()
    } else {
        remotes_of(lines.drop_last()) + (if line_is_remote(lines.last()) {
            seq![branch_name_of(lines.last()).subrange(8, branch_name_of(lines.last()).len() as int)]
        } else {
            Seq::empty()
        })
    }
}

/// The current branch name: the last local line flagged current, or empty.
pub open spec fn current_of(lines: Seq<Seq<char>>) -> Seq<char>
    decreases lines.len(),
{
    if lines.len() == 0 {
        Seq::empty()
    } else if line_is_local(lines.last()) && line_is_current(lines.last()) {
        branch_name_of(lines.last())
    } else {
        current_of(lines.drop_last())
    }
}

pub open spec fn branches_match(v: Seq<GitBranch>, model: Seq<(Seq<char>, bool)>) -> bool {
    &&& v.len() == model.len()
    &&& forall|i: int|
        0 <= i < v.len() ==> (#[trigger] v[i]).name@ == model[i].0 && v[i].is_current
            == model[i].1 && !v[i].is_remote
}

pub open spec fn remote_branches_match(v: Seq<GitBranch>, model: Seq<Seq<char>>) -> bool {
    &&& v.len() == model.len()
    &&& forall|i: int|
        0 <= i < v.len() ==> (#[trigger] v[i]).name@ == model[i] && !v[i].is_current
            && v[i].is_remote
}

/// Parse `git branch -a --no-color` output: a leading `*` flags the current
/// branch, `HEAD` pointer lines are skipped, `remotes/`-prefixed names are
/// listed as remote branches with the prefix stripped.
pub fn parse_branches(output: &str) -> (r: GitBranches)
    ensures
        r.current@ == current_of(spec_lines(output@)),
        branches_match(r.local@, locals_of(spec_lines(output@))),
        remote_branches_match(r.remote@, remotes_of(spec_lines(output@))),
{
    proof {
        reveal_strlit("remotes/");
        assert("remotes/"@.len() == 8);
    }
    let lines = split_lines(output);
    let ghost lv = views_of(lines@);
    let mut current = String::new();
    let mut local: Vec<GitBranch> = Vec::new();
    let mut remote: Vec<GitBranch> = Vec::new();
    let mut i: usize = 0;
    proof {
        assert(lv.take(0) =~= Seq::<Seq<char>>::empty());
    }
    while i < lines.len()
        invariant
            lv == views_of(lines@),
            lv.len() == lines@.len(),
            i <= lines@.len(),
            current@ == current_of(lv.take(i as int)),
            branches_match(local@, locals_of(lv.take(i as int))),
            remote_branches_match(remote@, remotes_of(lv.take(i as int))),
        decreases lines@.len() - i,
    {
        let ghost pre_take = lv.take(i as int);
        let line: &str = lines[i].as_str();
        proof {
            reveal_strlit("remotes/");
            assert("remotes/"@.len() == 8);
            assert(line@ == lv[i as int]);
            assert(lv.take(i + 1).drop_last() =~= pre_take);
            assert(lv.take(i + 1).last() == lv[i as int]);
        }
        let is_current = line.unicode_len() > 0 && line.get_char(0) == '*';
        let name: &str = str_trim(strip_leading(line, '*'));
        proof {
            assert(name@ == branch_name_of(line@));
            assert(is_current == line_is_current(line@));
        }
        if contains_chars(name, "HEAD") {
            // the detached HEAD pointer line is no branch
        } else if starts_with_chars(name, "remotes/") {
            let m = name.unicode_len();
            let stripped: &str = name.substring_char(8, m);
            proof {
                assert(stripped@ =~= name@.subrange(8, name@.len() as int));
            }
            remote.push(
                GitBranch { name: stripped.to_owned(), is_current: false, is_remote: true },
            );
        } else {
            if is_current {
                current = name.to_owned();
            }
            local.push(GitBranch { name: name.to_owned(), is_current, is_remote: false });
        }
        proof {
            assert(locals_of(lv.take(i + 1)) =~= locals_of(pre_take) + (if line_is_local(
                lv[i as int],
            ) {
                seq![(branch_name_of(lv[i as int]), line_is_current(lv[i as int]))]
            } else {
                Seq::<(Seq<char>, bool)>::empty()
            }));
            assert(remotes_of(lv.take(i + 1)) =~= remotes_of(pre_take) + (if line_is_remote(
                lv[i as int],
            ) {
                seq![branch_name_of(lv[i as int]).subrange(
                    8,
                    branch_name_of(lv[i as int]).len() as int,
                )]
            } else {
                Seq::<Seq<char>>::empty()
            }));
        }
        i += 1;
    }
    proof {
        assert(lv.take(lv.len() as int) =~= lv);
    }
    GitBranches { current, local, remote }
}

// ---------------------------------------------------------------------------
// log --format=%h|%s|%an|%ar
// ---------------------------------------------------------------------------
/// Index of the first occurrence of a character, or the length.
pub open spec fn first_at(s: Seq<char>, c: char) -> int
    decreases s.len(),
{
    if s.len() == 0 {
        0
    } else if s[0] == c {
        0
    } else {
        1 + first_at(s.drop_first(), c)
    }
}

proof fn lemma_first_at_is(s: Seq<char>, c: char, i: int)
    requires
        0 <= i <= s.len(),
        forall|k: int| 0 <= k < i ==> s[k] != c,
        i == s.len() || s[i] == c,
    ensures
        first_at(s, c) == i,
    decreases i,
{
    if s.len() == 0 {
    } else if s[0] == c {
        assert(i == 0);
    } else {
        let t = s.drop_first();
        assert(t =~= s.subrange(1, s.len() as int));
        lemma_first_at_is(t, c, i - 1);
    }
}

/// The four `|`-separated fields of one log line, if it has at least three
/// separators; the fourth field takes the whole remainder.
pub open spec fn commit_of(line: Seq<char>) -> Option<(Seq<char>, Seq<char>, Seq<char>, Seq<char>)> {
    let p1 = first_at(line, '|');
    if p1 >= line.len() {
        None
    } else {
        let r2 = line.subrange(p1 + 1, line.len() as int);
        let p2 = first_at(r2, '|');
        if p2 >= r2.len() {
            None
        } else {
            let r3 = r2.subrange(p2 + 1, r2.len() as int);
            let p3 = first_at(r3, '|');
            if p3 >= r3.len() {
                None
            } else {
                Some(
                    (
                        line.subrange(0, p1),
                        r2.subrange(0, p2),
                        r3.subrange(0, p3),
                        r3.subrange(p3 + 1, r3.len() as int),
                    ),
                )
            }
        }
    }
}

pub open spec fn commits_of(lines: Seq<Seq<char>>) -> Seq<(Seq<char>, Seq<char>, Seq<char>, Seq<char>)>
    decreases lines.len(),
{
    if lines.len() == 0 {
        Seq::empty()
    } else {
        commits_of(lines.drop_last()) + (match commit_of(lines.last()) {
            Some(c) => seq![c],
            None => Seq::empty(),
        })
    }
}

pub open spec fn commits_match(
    v: Seq<GitCommit>,
    model: Seq<(Seq<char>, Seq<char>, Seq<char>, Seq<char>)>,
) -> bool {
    &&& v.len() == model.len()
    &&& forall|i: int|
        0 <= i < v.len() ==> (#[trigger] v[i]).hash@ == model[i].0 && v[i].message@ == model[i].1
            && v[i].author@ == model[i].2 && v[i].date@ == model[i].3
}

/// Scan for a character from a position on.
fn find_char_from(s: &str, c: char, from: usize) -> (r: usize)
    requires
        from <= s@.len(),
    ensures
        from <= r <= s@.len(),
        forall|k: int| from <= k < r ==> s@[k] != c,
        r < s@.len() ==> s@[r as int] == c,
{
    let n = s.unicode_len();
    let mut j = from;
    while j < n && s.get_char(j) != c
        invariant
            n == s@.len(),
            from <= j <= n,
            forall|k: int| from <= k < j ==> s@[k] != c,
        decreases n - j,
    {
        j += 1;
    }
    j
}

/// Parse `git log` output in the fixed `%h|%s|%an|%ar` format: one commit
/// per line with at least three separators; other lines are dropped.
pub fn parse_log(output: &str) -> (r: Vec<GitCommit>)
    ensures
        commits_match(r@, commits_of(spec_lines(output@))),
{
    let lines = split_lines(output);
    let ghost lv = views_of(lines@);
    let mut commits: Vec<GitCommit> = Vec::new();
    let mut i: usize = 0;
    proof {
        assert(lv.take(0) =~= Seq::<Seq<char>>::empty());
    }
    while i < lines.len()
        invariant
            lv == views_of(lines@),
            lv.len() == lines@.len(),
            i <= lines@.len(),
            commits_match(commits@, commits_of(lv.take(i as int))),
        decreases lines@.len() - i,
    {
        let ghost pre_take = lv.take(i as int);
        let line: &str = lines[i].as_str();
        proof {
            assert(line@ == lv[i as int]);
            assert(lv.take(i + 1).drop_last() =~= pre_take);
            assert(lv.take(i + 1).last() == lv[i as int]);
        }
        let n = line.unicode_len();
        let p1 = find_char_from(line, '|', 0);
        proof {
            lemma_first_at_is(line@, '|', p1 as int);
        }
        if p1 < n {
            let ghost r2 = line@.subrange(p1 + 1, line@.len() as int);
            let p2 = find_char_from(line, '|', p1 + 1);
            proof {
                assert forall|k: int| 0 <= k < p2 - p1 - 1 implies r2[k] != '|' by {
                    assert(r2[k] == line@[p1 + 1 + k]);
                }
                if p2 < n {
                    assert(r2[p2 - p1 - 1] == line@[p2 as int]);
                }
                lemma_first_at_is(r2, '|', p2 - p1 - 1);
            }
            if p2 < n {
                let ghost r3 = r2.subrange(p2 - p1 as int, r2.len() as int);
                let p3 = find_char_from(line, '|', p2 + 1);
                proof {
                    assert(r3 =~= line@.subrange(p2 + 1, line@.len() as int));
                    assert forall|k: int| 0 <= k < p3 - p2 - 1 implies r3[k] != '|' by {
                        assert(r3[k] == line@[p2 + 1 + k]);
                    }
                    if p3 < n {
                        assert(r3[p3 - p2 - 1] == line@[p3 as int]);
                    }
                    lemma_first_at_is(r3, '|', p3 - p2 - 1);
                }
                if p3 < n {
                    let hash: &str = line.substring_char(0, p1);
                    let message: &str = line.substring_char(p1 + 1, p2);
                    let author: &str = line.substring_char(p2 + 1, p3);
                    let date: &str = line.substring_char(p3 + 1, n);
                    proof {
                        let m = commit_of(line@);
                        assert(hash@ =~= m->Some_0.0);
                        assert(message@ =~= r2.subrange(0, p2 - p1 - 1));
                        assert(message@ =~= m->Some_0.1);
                        assert(author@ =~= r3.subrange(0, p3 - p2 - 1));
                        assert(author@ =~= m->Some_0.2);
                        assert(date@ =~= r3.subrange(p3 - p2 as int, r3.len() as int));
                        assert(date@ =~= m->Some_0.3);
                    }
                    commits.push(
                        GitCommit {
                            hash: hash.to_owned(),
                            message: message.to_owned(),
                            author: author.to_owned(),
                            date: date.to_owned(),
                        },
                    );
                }
            }
        }
        proof {
            assert(commits_of(lv.take(i + 1)) =~= commits_of(pre_take) + (match commit_of(
                lv[i as int],
            ) {
                Some(c) => seq![c],
                None => Seq::<(Seq<char>, Seq<char>, Seq<char>, Seq<char>)>::empty(),
            }));
        }
        i += 1;
    }
    proof {
        assert(lv.take(lv.len() as int) =~= lv);
    }
    commits
}

// ---------------------------------------------------------------------------
// HEAD reference, and input checks
// ---------------------------------------------------------------------------
/// The branch a `.git/HEAD` file names: the trimmed remainder of a
/// `ref: refs/heads/` line, or the first seven characters of the trimmed
/// content for a detached head.
pub open spec fn head_branch_of(content: Seq<char>) -> Seq<char> {
    if content.len() >= 16 && content.subrange(0, 16) == "ref: refs/heads/"@ {
        trim_spec(content.subrange(16, content.len() as int))
    } else {
        let t = trim_spec(content);
        if t.len() <= 7 {
            t
        } else {
            t.take(7)
        }
    }
}

/// Extract the branch name from `.git/HEAD` content.
pub fn parse_head_ref(content: &str) -> (r: String)
    ensures
        r@ == head_branch_of(content@),
{
    proof {
        reveal_strlit("ref: refs/heads/");
        assert("ref: refs/heads/"@.len() == 16);
    }
    if starts_with_chars(content, "ref: refs/heads/") {
        let n = content.unicode_len();
        let rest: &str = content.substring_char(16, n);
        proof {
            assert(rest@ =~= content@.subrange(16, content@.len() as int));
        }
        str_trim(rest).to_owned()
    } else {
        let t: &str = str_trim(content);
        let m = t.unicode_len();
        if m <= 7 {
            t.to_owned()
        } else {
            let cut: &str = t.substring_char(0, 7);
            proof {
                assert(cut@ =~= trim_spec(content@).take(7));
            }
            cut.to_owned()
        }
    }
}

/// A commit message must not be blank.
pub fn commit_message_ok(message: &str) -> (r: bool)
    ensures
        r == (trim_spec(message@).len() > 0),
{
    str_trim(message).unicode_len() > 0
}

/// A new branch's name must not be blank.
pub fn branch_name_ok(branch: &str) -> (r: bool)
    ensures
        r == (trim_spec(branch@).len() > 0),
{
    str_trim(branch).unicode_len() > 0
}

/// The branch a checkout should target: a remote-tracking `origin/` prefix
/// is dropped so a local tracking branch is created.
pub fn checkout_target<'a>(branch: &'a str) -> (r: &'a str)
    ensures
        if branch@.len() >= 7 && branch@.subrange(0, 7) == "origin/"@ {
            r@ == branch@.subrange(7, branch@.len() as int)
        } else {
            r@ == branch@
        },
{
    proof {
        reveal_strlit("origin/");
        assert("origin/"@.len() == 7);
    }
    if starts_with_chars(branch, "origin/") {
        let n = branch.unicode_len();
        let r = branch.substring_char(7, n);
        proof {
            assert(r@ =~= branch@.subrange(7, branch@.len() as int));
        }
        r
    } else {
        branch
    }
}

} // verus!
