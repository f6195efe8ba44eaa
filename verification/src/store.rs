use vstd::prelude::*;
use vstd::string::StrSliceExecFns;
use vstd::string::StringExecFns;

use crate::errors::FileError;
use crate::listing::strictly_sorted;
use crate::listing::views_of;
use crate::order::NameOrder;
use crate::order::compare_names;
use crate::order::lemma_lex_transitive;
use crate::order::lemma_lex_trichotomy;
use crate::order::lex_lt;
use crate::sanitize::lemma_sanitized_name_valid;
use crate::sanitize::sanitize_filename;
use crate::sanitize::sanitize_ok;
use crate::sanitize::sanitized_name;
use crate::sanitize::txt_suffix_ci;

verus! {

/// Whether `c` is an ASCII capital letter.
pub open spec fn is_ascii_upper(c: char) -> bool {
    65 <= c as u32 <= 90
}

/// Whether two characters are the same letter, ASCII case aside.
pub open spec fn eq_ci_char(x: char, y: char) -> bool {
    ||| x == y
    ||| (is_ascii_upper(x) && y as u32 == x as u32 + 32)
    ||| (is_ascii_upper(y) && x as u32 == y as u32 + 32)
}

/// Whether two names are equal, ASCII letter case aside. Documents are
/// identified by this relation, as they are on the case-insensitive
/// filesystems the host typically stores them on.
pub open spec fn eq_ci(a: Seq<char>, b: Seq<char>) -> bool {
    a.len() == b.len() && forall|i: int| 0 <= i < a.len() ==> eq_ci_char(#[trigger] a[i], b[i])
}

proof fn lemma_eq_ci_refl(a: Seq<char>)
    ensures
        eq_ci(a, a),
{
}

proof fn lemma_eq_ci_sym(a: Seq<char>, b: Seq<char>)
    requires
        eq_ci(a, b),
    ensures
        eq_ci(b, a),
{
}

proof fn lemma_eq_ci_char_common(x: char, y: char, n: char)
    requires
        eq_ci_char(x, n),
        eq_ci_char(y, n),
    ensures
        eq_ci_char(x, y),
{
    vstd::utf8::char_u32_cast(x, x as u32);
    vstd::utf8::char_u32_cast(y, y as u32);
    vstd::utf8::char_u32_cast(n, n as u32);
}

proof fn lemma_eq_ci_common(a: Seq<char>, b: Seq<char>, n: Seq<char>)
    requires
        eq_ci(a, n),
        eq_ci(b, n),
    ensures
        eq_ci(a, b),
{
    assert forall|i: int| 0 <= i < a.len() implies eq_ci_char(#[trigger] a[i], b[i]) by {
        lemma_eq_ci_char_common(a[i], b[i], n[i]);
    }
}

fn eq_ci_char_exec(x: char, y: char) -> (r: bool)
    ensures
        r == eq_ci_char(x, y),
{
    let xv = x as u32;
    let yv = y as u32;
    proof {
        vstd::utf8::char_u32_cast(x, xv);
        vstd::utf8::char_u32_cast(y, yv);
    }
    xv == yv || (65 <= xv && xv <= 90 && yv == xv + 32) || (65 <= yv && yv <= 90 && xv == yv + 32)
}

fn eq_ci_str(a: &str, b: &str) -> (r: bool)
    ensures
        r == eq_ci(a@, b@),
{
    let la = a.unicode_len();
    let lb = b.unicode_len();
    if la != lb {
        return false;
    }
    let mut i: usize = 0;
    while i < la
        invariant
            0 <= i <= la == a@.len(),
            la == lb == b@.len(),
            forall|k: int| 0 <= k < i ==> eq_ci_char(#[trigger] a@[k], b@[k]),
        decreases la - i,
    {
        if !eq_ci_char_exec(a.get_char(i), b.get_char(i)) {
            return false;
        }
        i = i + 1;
    }
    true
}

/// One stored document: its name as kept on disk, and its text.
pub struct StoredDoc {
    pub name: String,
    pub content: String,
}

/// The path a document of the store is written to.
pub open spec fn path_join(dir: Seq<char>, name: Seq<char>) -> Seq<char> {
    dir + seq!['/'] + name
}

fn join_path(dir: &String, name: &str) -> (p: String)
    ensures
        p@ == path_join(dir@, name@),
{
    let mut p = dir.clone();
    p.append("/");
    p.append(name);
    proof {
        reveal_strlit("/");
        assert(p@ =~= path_join(dir@, name@));
    }
    p
}

/// The compute half of resolving a document's place on disk: the
/// sanitized name joined onto the store's directory. The host resolves
/// and creates the directory itself.
pub fn device_file_path(dir: &str, filename: &str) -> (r: Result<String, FileError>)
    ensures
        match r {
            Ok(p) => sanitize_ok(filename@) && p@ == path_join(dir@, sanitized_name(filename@)),
            Err(e) => e == FileError::InvalidFilename && !sanitize_ok(filename@),
        },
{
    match sanitize_filename(filename) {
        Ok(name) => {
            let d = String::from_str(dir);
            Ok(join_path(&d, name.as_str()))
        },
        Err(e) => Err(e),
    }
}

/// Whether the documents hold `name`, ASCII letter case aside.
pub open spec fn has_doc(docs: Seq<(Seq<char>, Seq<char>)>, name: Seq<char>) -> bool {
    exists|i: int| 0 <= i < docs.len() && eq_ci(#[trigger] docs[i].0, name)
}

/// The content filed under `name`; meaningful only when `has_doc`.
pub open spec fn content_of(docs: Seq<(Seq<char>, Seq<char>)>, name: Seq<char>) -> Seq<char> {
    docs[choose|i: int| 0 <= i < docs.len() && eq_ci(#[trigger] docs[i].0, name)].1
}

/// Well-formed documents: stored names are strictly sorted, pairwise
/// distinct even ASCII case aside, and each ends in `.txt`.
pub open spec fn docs_wf(docs: Seq<(Seq<char>, Seq<char>)>) -> bool {
    &&& forall|i: int, j: int|
        0 <= i < j < docs.len() ==> lex_lt(#[trigger] docs[i].0, #[trigger] docs[j].0)
    &&& forall|i: int, j: int|
        0 <= i < docs.len() && 0 <= j < docs.len() && i != j ==> !eq_ci(
            #[trigger] docs[i].0,
            #[trigger] docs[j].0,
        )
    &&& forall|i: int| 0 <= i < docs.len() ==> txt_suffix_ci(#[trigger] docs[i].0)
}

/// How one save changes the documents: the matching document's content
/// is replaced, its stored name kept; a fresh name is filed as a new
/// document in its sorted place; nothing else changes.
pub open spec fn saved_docs(
    pre: Seq<(Seq<char>, Seq<char>)>,
    post: Seq<(Seq<char>, Seq<char>)>,
    name: Seq<char>,
    content: Seq<char>,
) -> bool {
    if has_doc(pre, name) {
        exists|i: int|
            0 <= i < pre.len() && eq_ci(#[trigger] pre[i].0, name) && post == pre.update(
                i,
                (pre[i].0, content),
            )
    } else {
        exists|i: int| 0 <= i <= pre.len() && post == pre.insert(i, (name, content))
    }
}

proof fn lemma_unique_match(docs: Seq<(Seq<char>, Seq<char>)>, name: Seq<char>, i: int)
    requires
        docs_wf(docs),
        0 <= i < docs.len(),
        eq_ci(docs[i].0, name),
    ensures
        has_doc(docs, name),
        content_of(docs, name) == docs[i].1,
{
    assert(has_doc(docs, name));
    let j = choose|j: int| 0 <= j < docs.len() && eq_ci(#[trigger] docs[j].0, name);
    if j != i {
        lemma_eq_ci_common(docs[i].0, docs[j].0, name);
        assert(false);
    }
}

/// The sandboxed store of text documents inside the application's own
/// directory. It models the directory's contents; the host mirrors each
/// completed operation to disk.
pub struct DeviceFileStore {
    dir: String,
    files: Vec<StoredDoc>,
}

impl DeviceFileStore {
    /// The resolved application data directory the documents live in.
    pub closed spec fn dir_name(&self) -> Seq<char> {
        self.dir@
    }

    /// The store's documents, as (name, content) pairs in listing order.
    pub closed spec fn docs(&self) -> Seq<(Seq<char>, Seq<char>)> {
        self.files@.map_values(|d: StoredDoc| (d.name@, d.content@))
    }

    /// The store's structural invariant.
    pub open spec fn wf(&self) -> bool {
        docs_wf(self.docs())
    }

    /// An empty store over the given directory.
    pub fn new(dir: String) -> (s: DeviceFileStore)
        ensures
            s.wf(),
            s.docs() =~= Seq::<(Seq<char>, Seq<char>)>::empty(),
            s.dir_name() == dir@,
    {
        DeviceFileStore { dir, files: Vec::new() }
    }

    /// Sanitizes the filename and files `content` under the resulting
    /// name, overwriting the document that holds that name (ASCII case
    /// aside); returns the path written.
    #[verifier::loop_isolation(false)]
    pub fn save(&mut self, filename: &str, content: String) -> (r: Result<String, FileError>)
        requires
            old(self).wf(),
        ensures
            final(self).wf(),
            final(self).dir_name() == old(self).dir_name(),
            match r {
                Ok(p) => {
                    &&& sanitize_ok(filename@)
                    &&& p@ == path_join(old(self).dir_name(), sanitized_name(filename@))
                    &&& saved_docs(
                        old(self).docs(),
                        final(self).docs(),
                        sanitized_name(filename@),
                        content@,
                    )
                },
                Err(e) => {
                    &&& e == FileError::InvalidFilename
                    &&& !sanitize_ok(filename@)
                    &&& final(self).docs() == old(self).docs()
                },
            },
    {
        let name = match sanitize_filename(filename) {
            Ok(n) => n,
            Err(e) => {
                return Err(e);
            },
        };
        proof {
            lemma_sanitized_name_valid(filename@);
        }
        let path = join_path(&self.dir, name.as_str());
        let n = self.files.len();
        let mut i: usize = 0;
        while i < n
            invariant
                *self == *old(self),
                n == self.files@.len(),
                0 <= i <= n,
                forall|k: int| 0 <= k < i ==> !eq_ci(#[trigger] self.docs()[k].0, name@),
                name@ == sanitized_name(filename@),
            decreases n - i,
        {
            proof {
                assert(self.docs()[i as int].0 == self.files@[i as int].name@);
            }
            if eq_ci_str(self.files[i].name.as_str(), name.as_str()) {
                let ghost pre = self.docs();
                let ghost ii = i as int;
                self.files[i].content = content;
                proof {
                    assert(self.docs() =~= pre.update(ii, (pre[ii].0, self.docs()[ii].1)));
                    assert(self.docs()[ii].1 == content@);
                    assert(has_doc(pre, name@));
                    assert(saved_docs(pre, self.docs(), name@, content@));
                    assert forall|p2: int, q2: int|
                        0 <= p2 < q2 < self.docs().len() implies lex_lt(
                        self.docs()[p2].0,
                        self.docs()[q2].0,
                    ) by {
                        assert(self.docs()[p2].0 == pre[p2].0);
                        assert(self.docs()[q2].0 == pre[q2].0);
                    }
                    assert forall|p2: int, q2: int|
                        0 <= p2 < self.docs().len() && 0 <= q2 < self.docs().len() && p2
                            != q2 implies !eq_ci(self.docs()[p2].0, self.docs()[q2].0) by {
                        assert(self.docs()[p2].0 == pre[p2].0);
                        assert(self.docs()[q2].0 == pre[q2].0);
                    }
                    assert forall|k: int| 0 <= k < self.docs().len() implies txt_suffix_ci(
                        self.docs()[k].0,
                    ) by {
                        assert(self.docs()[k].0 == pre[k].0);
                    }
                }
                return Ok(path);
            }
            i = i + 1;
        }
        proof {
            assert(!has_doc(self.docs(), name@));
        }
        let mut p: usize = 0;
        let mut place_found: bool = false;
        while !place_found && p < n
            invariant
                *self == *old(self),
                n == self.files@.len(),
                0 <= p <= n,
                forall|k: int| 0 <= k < p ==> lex_lt(#[trigger] self.docs()[k].0, name@),
                place_found ==> p < n && !lex_lt(self.docs()[p as int].0, name@),
                name@ == sanitized_name(filename@),
            decreases n - p + if place_found {
                0int
            } else {
                1int
            },
        {
            proof {
                assert(self.docs()[p as int].0 == self.files@[p as int].name@);
            }
            match compare_names(self.files[p].name.as_str(), name.as_str()) {
                NameOrder::Before => {
                    p = p + 1;
                },
                NameOrder::Same => {
                    // Unreachable: a name equal even in case would have
                    // matched the case-insensitive scan above.
                    proof {
                        lemma_eq_ci_refl(name@);
                        assert(eq_ci(self.docs()[p as int].0, name@));
                        assert(false);
                    }
                    place_found = true;
                },
                NameOrder::After => {
                    proof {
                        lemma_lex_trichotomy(self.docs()[p as int].0, name@);
                    }
                    place_found = true;
                },
            }
        }
        let ghost pre = self.docs();
        let ghost pp = p as int;
        let ghost nseq = name@;
        proof {
            if place_found {
                lemma_lex_trichotomy(pre[pp].0, nseq);
                if pre[pp].0 =~= nseq {
                    lemma_eq_ci_refl(nseq);
                    assert(eq_ci(pre[pp].0, nseq));
                    assert(false);
                }
                assert(lex_lt(nseq, pre[pp].0));
            }
        }
        self.files.insert(p, StoredDoc { name, content });
        proof {
            assert(self.docs().len() == pre.len() + 1);
            assert(self.docs()[pp] == (nseq, content@));
            assert(forall|k: int| 0 <= k < pp ==> #[trigger] self.docs()[k] == pre[k]);
            assert(forall|k: int|
                pp < k < self.docs().len() ==> #[trigger] self.docs()[k] == pre[k - 1]);
            assert(self.docs() =~= pre.insert(pp, (nseq, content@)));
            assert(saved_docs(pre, self.docs(), nseq, content@));
            assert forall|p2: int, q2: int|
                0 <= p2 < q2 < self.docs().len() implies lex_lt(
                self.docs()[p2].0,
                self.docs()[q2].0,
            ) by {
                if p2 < pp && q2 == pp {
                } else if p2 == pp && q2 > pp {
                    if q2 > pp + 1 {
                        lemma_lex_transitive(nseq, pre[pp].0, pre[q2 - 1].0);
                    }
                } else if p2 < pp && q2 > pp {
                    if q2 > pp + 1 {
                        lemma_lex_transitive(nseq, pre[pp].0, pre[q2 - 1].0);
                    }
                    lemma_lex_transitive(pre[p2].0, nseq, pre[q2 - 1].0);
                }
            }
            assert forall|p2: int, q2: int|
                0 <= p2 < self.docs().len() && 0 <= q2 < self.docs().len() && p2
                    != q2 implies !eq_ci(self.docs()[p2].0, self.docs()[q2].0) by {
                if p2 == pp && q2 != pp {
                    let o = if q2 < pp {
                        q2
                    } else {
                        q2 - 1
                    };
                    assert(self.docs()[q2].0 == pre[o].0);
                    if eq_ci(nseq, pre[o].0) {
                        lemma_eq_ci_sym(nseq, pre[o].0);
                        assert(has_doc(pre, nseq));
                        assert(false);
                    }
                } else if q2 == pp && p2 != pp {
                    let o = if p2 < pp {
                        p2
                    } else {
                        p2 - 1
                    };
                    assert(self.docs()[p2].0 == pre[o].0);
                    if eq_ci(pre[o].0, nseq) {
                        assert(has_doc(pre, nseq));
                        assert(false);
                    }
                }
            }
            assert forall|k: int| 0 <= k < self.docs().len() implies txt_suffix_ci(
                self.docs()[k].0,
            ) by {
                if k != pp {
                    let o = if k < pp {
                        k
                    } else {
                        k - 1
                    };
                    assert(self.docs()[k].0 == pre[o].0);
                }
            }
        }
        Ok(path)
    }

    /// Sanitizes the filename and returns the content filed under the
    /// resulting name (ASCII case aside); a name the store does not hold
    /// reads as `ReadError`.
    #[verifier::loop_isolation(false)]
    pub fn read(&self, filename: &str) -> (r: Result<String, FileError>)
        requires
            self.wf(),
        ensures
            match r {
                Ok(c) => {
                    &&& sanitize_ok(filename@)
                    &&& has_doc(self.docs(), sanitized_name(filename@))
                    &&& c@ == content_of(self.docs(), sanitized_name(filename@))
                },
                Err(e) => {
                    ||| (e == FileError::InvalidFilename && !sanitize_ok(filename@))
                    ||| (e == FileError::ReadError && sanitize_ok(filename@) && !has_doc(
                        self.docs(),
                        sanitized_name(filename@),
                    ))
                },
            },
    {
        let name = match sanitize_filename(filename) {
            Ok(n) => n,
            Err(e) => {
                return Err(e);
            },
        };
        let n = self.files.len();
        let mut i: usize = 0;
        while i < n
            invariant
                self.wf(),
                n == self.files@.len(),
                0 <= i <= n,
                forall|k: int| 0 <= k < i ==> !eq_ci(#[trigger] self.docs()[k].0, name@),
            decreases n - i,
        {
            proof {
                assert(self.docs()[i as int].0 == self.files@[i as int].name@);
                assert(self.docs()[i as int].1 == self.files@[i as int].content@);
            }
            if eq_ci_str(self.files[i].name.as_str(), name.as_str()) {
                proof {
                    lemma_unique_match(self.docs(), name@, i as int);
                }
                return Ok(self.files[i].content.clone());
            }
            i = i + 1;
        }
        proof {
            assert(!has_doc(self.docs(), name@));
        }
        Err(FileError::ReadError)
    }

    /// The stored names, in ascending order, each ending in `.txt`, with
    /// no duplicates; an empty store lists as an empty vector, and
    /// listing cannot fail.
    #[verifier::loop_isolation(false)]
    pub fn list(&self) -> (r: Vec<String>)
        requires
            self.wf(),
        ensures
            r@.len() == self.docs().len(),
            forall|m: int| 0 <= m < r@.len() ==> #[trigger] r@[m]@ == self.docs()[m].0,
            strictly_sorted(views_of(r@)),
            forall|m: int| 0 <= m < r@.len() ==> txt_suffix_ci(#[trigger] r@[m]@),
    {
        let n = self.files.len();
        let mut r: Vec<String> = Vec::new();
        let mut i: usize = 0;
        while i < n
            invariant
                self.wf(),
                n == self.files@.len(),
                0 <= i <= n,
                r@.len() == i,
                forall|m: int| 0 <= m < i ==> #[trigger] r@[m]@ == self.docs()[m].0,
            decreases n - i,
        {
            proof {
                assert(self.docs()[i as int].0 == self.files@[i as int].name@);
            }
            r.push(self.files[i].name.clone());
            i = i + 1;
        }
        proof {
            assert forall|p2: int, q2: int|
                0 <= p2 < q2 < views_of(r@).len() implies lex_lt(
                views_of(r@)[p2],
                views_of(r@)[q2],
            ) by {
                assert(views_of(r@)[p2] == r@[p2]@);
                assert(views_of(r@)[q2] == r@[q2]@);
                assert(lex_lt(self.docs()[p2].0, self.docs()[q2].0));
            }
        }
        r
    }
}

/// Saving and then reading the same filename yields exactly the content
/// saved, whatever well-formed state the store held before.
pub proof fn lemma_save_then_read(
    pre: Seq<(Seq<char>, Seq<char>)>,
    post: Seq<(Seq<char>, Seq<char>)>,
    name: Seq<char>,
    content: Seq<char>,
)
    requires
        docs_wf(pre),
        docs_wf(post),
        saved_docs(pre, post, name, content),
    ensures
        has_doc(post, name),
        content_of(post, name) == content,
{
    if has_doc(pre, name) {
        let i = choose|i: int|
            0 <= i < pre.len() && eq_ci(#[trigger] pre[i].0, name) && post == pre.update(
                i,
                (pre[i].0, content),
            );
        assert(post[i] == (pre[i].0, content));
        lemma_unique_match(post, name, i);
    } else {
        let i = choose|i: int| 0 <= i <= pre.len() && post == pre.insert(i, (name, content));
        assert(post[i] == (name, content));
        lemma_eq_ci_refl(name);
        lemma_unique_match(post, name, i);
    }
}

} // verus!
