use vstd::prelude::*;
use crate::chars::{from_chars, slice_chars, to_chars};

verus! {

/// Identifier of a registered location.
#[derive(Debug, Clone, Copy, PartialEq, Eq, Hash, Structural)]
pub struct LocationId(pub i64);

impl From<i64> for LocationId {
    fn from(id: i64) -> (out: Self)
        ensures
            out.0 == id,
    {
        LocationId(id)
    }
}

impl vstd::std_specs::convert::FromSpecImpl<i64> for LocationId {
    open spec fn obeys_from_spec() -> bool {
        true
    }

    open spec fn from_spec(id: i64) -> Self {
        LocationId(id)
    }
}

impl From<LocationId> for i64 {
    fn from(id: LocationId) -> (out: Self)
        ensures
            out == id.0,
    {
        id.0
    }
}

impl vstd::std_specs::convert::FromSpecImpl<LocationId> for i64 {
    open spec fn obeys_from_spec() -> bool {
        true
    }

    open spec fn from_spec(id: LocationId) -> Self {
        id.0
    }
}

/// Why a relative path was refused.
#[derive(Debug, Clone, PartialEq)]
pub enum PathError {
    PathTraversalAttempt,
    EmptyPath,
    InvalidPath(String),
}

/// What normalising a path yields, as a value of the model.
pub enum Normalized {
    Path(Seq<char>),
    Empty,
    Traversal,
    Absolute,
}

/// Index of the first separator in `s`, or `s.len()` when it has none.
pub open spec fn first_sep(s: Seq<char>) -> int
    decreases s.len(),
{
    if s.len() == 0 || s[0] == '/' {
        0
    } else {
        1 + first_sep(s.drop_first())
    }
}

/// The pieces of `s` between separators, empty pieces included.
pub open spec fn segments(s: Seq<char>) -> Seq<Seq<char>>
    decreases s.len(),
{
    let k = first_sep(s);
    if 0 <= k < s.len() {
        seq![s.take(k)] + segments(s.skip(k + 1))
    } else {
        seq![s]
    }
}

pub open spec fn is_cur_dir(seg: Seq<char>) -> bool {
    seg.len() == 0 || seg =~= seq!['.']
}

pub open spec fn is_parent_dir(seg: Seq<char>) -> bool {
    seg =~= seq!['.', '.']
}

/// A segment that names something: neither skipped nor a step upwards.
pub open spec fn is_normal_segment(seg: Seq<char>) -> bool {
    !is_cur_dir(seg) && !is_parent_dir(seg)
}

/// One step of the walk: `None` when a step upwards finds nothing to pop.
pub open spec fn step(stack: Seq<Seq<char>>, seg: Seq<char>) -> Option<Seq<Seq<char>>> {
    if is_cur_dir(seg) {
        Some(stack)
    } else if is_parent_dir(seg) {
        if stack.len() == 0 {
            None
        } else {
            Some(stack.drop_last())
        }
    } else {
        Some(stack.push(seg))
    }
}

/// The walk over all segments, starting from `stack`.
pub open spec fn walk(segs: Seq<Seq<char>>, stack: Seq<Seq<char>>) -> Option<Seq<Seq<char>>>
    decreases segs.len(),
{
    if segs.len() == 0 {
        Some(stack)
    } else {
        match step(stack, segs[0]) {
            None => None,
            Some(next) => walk(segs.drop_first(), next),
        }
    }
}

/// The segments joined by single separators.
pub open spec fn join(segs: Seq<Seq<char>>) -> Seq<char>
    decreases segs.len(),
{
    if segs.len() == 0 {
        Seq::empty()
    } else if segs.len() == 1 {
        segs[0]
    } else {
        join(segs.drop_last()) + seq!['/'] + segs.last()
    }
}

/// Normalisation of a relative path: skipped segments vanish, a step upwards
/// cancels the segment before it, and nothing may climb above the start.
pub open spec fn normalize_spec(path: Seq<char>) -> Normalized {
    if path.len() == 0 {
        Normalized::Empty
    } else if path[0] == '/' {
        Normalized::Absolute
    } else {
        match walk(segments(path), Seq::empty()) {
            None => Normalized::Traversal,
            Some(stack) => if stack.len() == 0 {
                Normalized::Empty
            } else {
                Normalized::Path(join(stack))
            },
        }
    }
}

pub open spec fn absolute_path_message() -> Seq<char> {
    "Absolute paths are not allowed as relative paths"@
}

/// The model value that a result of `normalize_relative_path` stands for.
pub open spec fn outcome_of(r: Result<String, PathError>) -> Normalized {
    match r {
        Ok(p) => Normalized::Path(p@),
        Err(PathError::EmptyPath) => Normalized::Empty,
        Err(PathError::PathTraversalAttempt) => Normalized::Traversal,
        Err(PathError::InvalidPath(_)) => Normalized::Absolute,
    }
}

pub open spec fn views(stack: Seq<Vec<char>>) -> Seq<Seq<char>> {
    stack.map_values(|v: Vec<char>| v@)
}

proof fn lemma_first_sep_bounds(s: Seq<char>)
    ensures
        0 <= first_sep(s) <= s.len(),
        first_sep(s) < s.len() ==> s[first_sep(s)] == '/',
        forall|j: int| 0 <= j < first_sep(s) ==> s[j] != '/',
    decreases s.len(),
{
    if s.len() == 0 || s[0] == '/' {
    } else {
        lemma_first_sep_bounds(s.drop_first());
        assert forall|j: int| 0 <= j < first_sep(s) implies s[j] != '/' by {
            if j > 0 {
                assert(s.drop_first()[j - 1] == s[j]);
            }
        }
    }
}

pub proof fn lemma_first_sep_is(s: Seq<char>, k: int)
    requires
        0 <= k <= s.len(),
        forall|j: int| 0 <= j < k ==> s[j] != '/',
        k < s.len() ==> s[k] == '/',
    ensures
        first_sep(s) == k,
    decreases s.len(),
{
    if s.len() == 0 || s[0] == '/' {
    } else {
        let t = s.drop_first();
        assert forall|j: int| 0 <= j < k - 1 implies t[j] != '/' by {
            assert(t[j] == s[j + 1]);
        }
        lemma_first_sep_is(t, k - 1);
    }
}

/// The segments of `stack` joined by separators.
fn join_segments(stack: &Vec<Vec<char>>) -> (out: Vec<char>)
    ensures
        out@ == join(views(stack@)),
{
    let mut out: Vec<char> = Vec::new();
    let mut i: usize = 0;
    while i < stack.len()
        invariant
            i <= stack.len(),
            out@ == join(views(stack@).take(i as int)),
        decreases stack.len() - i,
    {
        let ghost before = views(stack@).take(i as int);
        let ghost after = views(stack@).take(i + 1);
        proof {
            assert(after.drop_last() =~= before);
            assert(after.last() == stack@[i as int]@);
        }
        if i > 0 {
            out.push('/');
        }
        let seg = &stack[i];
        let mut j: usize = 0;
        let ghost base = out@;
        while j < seg.len()
            invariant
                j <= seg.len(),
                out@ == base + seg@.take(j as int),
            decreases seg.len() - j,
        {
            out.push(seg[j]);
            j += 1;
        }
        proof {
            assert(seg@.take(seg.len() as int) =~= seg@);
            if i == 0 {
                assert(before.len() == 0);
                assert(base =~= Seq::<char>::empty());
                assert(out@ =~= seg@);
            }
        }
        i += 1;
    }
    proof {
        assert(views(stack@).take(stack.len() as int) =~= views(stack@));
    }
    out
}

/// Splits a path at its separators.
pub fn split_segments(path: &Vec<char>) -> (out: Vec<Vec<char>>)
    ensures
        views(out@) == segments(path@),
{
    let n = path.len();
    let mut out: Vec<Vec<char>> = Vec::new();
    let mut start: usize = 0;
    let mut i: usize = 0;
    proof {
        assert(path@.skip(0) =~= path@);
        assert(views(out@) + segments(path@) =~= segments(path@));
    }
    loop
        invariant_except_break
            forall|j: int| start <= j < i ==> path@[j] != '/',
            segments(path@) == views(out@) + segments(path@.skip(start as int)),
        invariant
            n == path.len(),
            start <= i <= n,
        ensures
            segments(path@) == views(out@),
        decreases n - i,
    {
        if i < n && path[i] != '/' {
            i += 1;
            continue;
        }
        let ghost rest = path@.skip(start as int);
        let ghost seg = path@.subrange(start as int, i as int);
        let ghost before = views(out@);
        proof {
            assert forall|j: int| 0 <= j < i - start implies rest[j] != '/' by {
                assert(rest[j] == path@[start + j]);
            }
            lemma_first_sep_is(rest, i - start);
            assert(rest.take(i - start) =~= seg);
            if i < n {
                assert(rest.skip(i - start + 1) =~= path@.skip(i + 1));
            } else {
                assert(rest =~= seg);
            }
        }
        let piece = slice_chars(path, start, i);
        out.push(piece);
        proof {
            assert(views(out@) =~= before.push(seg));
            if i < n {
                assert(before + (seq![seg] + segments(path@.skip(i + 1))) =~= before.push(seg)
                    + segments(path@.skip(i + 1)));
            } else {
                assert(before + seq![seg] =~= before.push(seg));
            }
        }
        if i >= n {
            break;
        }
        i += 1;
        start = i;
    }
    out
}

/// Whether a segment is skipped, and whether it is a step upwards.
pub fn segment_kind(seg: &Vec<char>) -> (out: (bool, bool))
    ensures
        out.0 == is_cur_dir(seg@),
        out.1 == is_parent_dir(seg@),
{
    let is_cur = seg.len() == 0 || (seg.len() == 1 && seg[0] == '.');
    let is_parent = seg.len() == 2 && seg[0] == '.' && seg[1] == '.';
    proof {
        assert(is_cur == is_cur_dir(seg@)) by {
            if seg.len() == 1 && seg@[0] == '.' {
                assert(seg@ =~= seq!['.']);
            }
            if is_cur_dir(seg@) && seg@.len() != 0 {
                assert(seg@ == seq!['.']);
                assert(seg@.len() == 1 && seg@[0] == '.');
            }
        }
        assert(is_parent == is_parent_dir(seg@)) by {
            if is_parent {
                assert(seg@ =~= seq!['.', '.']);
            }
            if is_parent_dir(seg@) {
                assert(seg@ == seq!['.', '.']);
                assert(seg@.len() == 2 && seg@[0] == '.' && seg@[1] == '.');
            }
        }
    }
    (is_cur, is_parent)
}

/// Normalises a relative path and refuses any that leaves its root.
///
/// Segments are separated by `/`. Empty segments and `.` are skipped, `..`
/// cancels the segment before it, and the result is the remaining segments
/// joined by single separators. A path that starts with a separator is
/// absolute and refused.
pub fn normalize_relative_path(path: &str) -> (result: Result<String, PathError>)
    ensures
        outcome_of(result) == normalize_spec(path@),
        match result {
            Err(PathError::InvalidPath(msg)) => msg@ == absolute_path_message(),
            _ => true,
        },
{
    let chars = to_chars(path);
    if chars.len() == 0 {
        return Err(PathError::EmptyPath);
    }
    if chars[0] == '/' {
        return Err(
            PathError::InvalidPath("Absolute paths are not allowed as relative paths".to_string()),
        );
    }
    let segs = split_segments(&chars);
    let ghost all = views(segs@);
    let mut stack: Vec<Vec<char>> = Vec::new();
    let mut i: usize = 0;
    proof {
        assert(all.skip(0) =~= all);
        assert(views(stack@) =~= Seq::<Seq<char>>::empty());
    }
    while i < segs.len()
        invariant
            i <= segs.len(),
            chars@ == path@,
            chars@.len() > 0,
            chars@[0] != '/',
            all == views(segs@),
            all == segments(chars@),
            walk(all, Seq::empty()) == walk(all.skip(i as int), views(stack@)),
        decreases segs.len() - i,
    {
        let ghost rest = all.skip(i as int);
        let ghost before = views(stack@);
        proof {
            assert(rest[0] == segs@[i as int]@);
            assert(rest.drop_first() =~= all.skip(i + 1));
        }
        let (is_cur, is_parent) = segment_kind(&segs[i]);
        if is_cur {
        } else if is_parent {
            if stack.len() == 0 {
                proof {
                    assert(before.len() == 0);
                    assert(step(before, rest[0]) is None);
                }
                return Err(PathError::PathTraversalAttempt);
            }
            stack.pop();
            proof {
                assert(views(stack@) =~= before.drop_last());
            }
        } else {
            stack.push(slice_chars(&segs[i], 0, segs[i].len()));
            proof {
                assert(segs@[i as int]@.subrange(0, segs@[i as int]@.len() as int)
                    =~= segs@[i as int]@);
                assert(views(stack@) =~= before.push(rest[0]));
            }
        }
        i += 1;
    }
    proof {
        assert(all.skip(segs.len() as int).len() == 0);
    }
    if stack.len() == 0 {
        return Err(PathError::EmptyPath);
    }
    let joined = join_segments(&stack);
    Ok(from_chars(&joined))
}

/// `root` followed by `rel`, with one separator between them where `root`
/// does not already end in one. An absolute `rel` replaces `root`.
pub open spec fn join_path_spec(root: Seq<char>, rel: Seq<char>) -> Seq<char> {
    if rel.len() > 0 && rel[0] == '/' {
        rel
    } else if root.len() == 0 {
        rel
    } else if root.last() == '/' {
        root + rel
    } else {
        root + seq!['/'] + rel
    }
}

/// Joins a relative path onto a root.
pub fn join_path(root: &str, rel: &str) -> (out: String)
    ensures
        out@ == join_path_spec(root@, rel@),
{
    let r = to_chars(root);
    let p = to_chars(rel);
    if p.len() > 0 && p[0] == '/' {
        return from_chars(&p);
    }
    let mut out: Vec<char> = Vec::new();
    let mut i: usize = 0;
    while i < r.len()
        invariant
            i <= r.len(),
            out@ == r@.take(i as int),
        decreases r.len() - i,
    {
        out.push(r[i]);
        i += 1;
    }
    proof {
        assert(r@.take(r.len() as int) =~= r@);
    }
    if r.len() > 0 && r[r.len() - 1] != '/' {
        out.push('/');
    }
    let ghost base = out@;
    let mut j: usize = 0;
    while j < p.len()
        invariant
            j <= p.len(),
            out@ == base + p@.take(j as int),
        decreases p.len() - j,
    {
        out.push(p[j]);
        j += 1;
    }
    proof {
        assert(p@.take(p.len() as int) =~= p@);
        assert(Seq::<char>::empty() + p@ =~= p@);
    }
    from_chars(&out)
}

/// A path that normalisation leaves as it is.
pub open spec fn is_normalized(path: Seq<char>) -> bool {
    normalize_spec(path) == Normalized::Path(path)
}

/// Reference to a document: a location and a path below its root.
#[derive(Debug, Clone, PartialEq)]
pub struct DocRef {
    pub location_id: LocationId,
    pub rel_path: String,
}

impl DocRef {
    /// The path has passed normalisation.
    pub open spec fn wf(&self) -> bool {
        is_normalized(self.rel_path@)
    }

    /// Builds a reference from a path, which is normalised first.
    pub fn new(location_id: LocationId, rel_path: String) -> (result: Result<Self, PathError>)
        ensures
            match result {
                Ok(r) => normalize_spec(rel_path@) == Normalized::Path(r.rel_path@)
                    && r.location_id == location_id && r.wf(),
                Err(e) => outcome_of(Err(e)) == normalize_spec(rel_path@) && !(normalize_spec(
                    rel_path@,
                ) is Path),
            },
            match result {
                Err(PathError::InvalidPath(msg)) => msg@ == absolute_path_message(),
                _ => true,
            },
    {
        match normalize_relative_path(rel_path.as_str()) {
            Ok(normalized) => {
                proof {
                    lemma_normalize_idempotent(rel_path@);
                }
                Ok(DocRef { location_id, rel_path: normalized })
            },
            Err(e) => Err(e),
        }
    }

    /// The document's full path below `location_root`.
    pub fn resolve(&self, location_root: &str) -> (out: String)
        ensures
            out@ == join_path_spec(location_root@, self.rel_path@),
            self.wf() ==> location_root@.is_prefix_of(out@),
    {
        proof {
            if self.wf() {
                lemma_resolve_stays_under_root(location_root@, self.rel_path@);
            }
        }
        join_path(location_root, self.rel_path.as_str())
    }
}

/// Identity of a document inside a location.
#[derive(Debug, Clone, PartialEq, Eq, Hash)]
pub struct DocId {
    pub location_id: LocationId,
    pub rel_path: String,
}

impl DocId {
    /// The path has passed normalisation.
    pub open spec fn wf(&self) -> bool {
        is_normalized(self.rel_path@)
    }

    /// Builds an identity from a path, which is normalised first.
    pub fn new(location_id: LocationId, rel_path: String) -> (result: Result<Self, PathError>)
        ensures
            match result {
                Ok(r) => normalize_spec(rel_path@) == Normalized::Path(r.rel_path@)
                    && r.location_id == location_id && r.wf(),
                Err(e) => outcome_of(Err(e)) == normalize_spec(rel_path@) && !(normalize_spec(
                    rel_path@,
                ) is Path),
            },
            match result {
                Err(PathError::InvalidPath(msg)) => msg@ == absolute_path_message(),
                _ => true,
            },
    {
        match normalize_relative_path(rel_path.as_str()) {
            Ok(normalized) => {
                proof {
                    lemma_normalize_idempotent(rel_path@);
                }
                Ok(DocId { location_id, rel_path: normalized })
            },
            Err(e) => Err(e),
        }
    }

    /// The document's full path below `location_root`.
    pub fn resolve(&self, location_root: &str) -> (out: String)
        ensures
            out@ == join_path_spec(location_root@, self.rel_path@),
            self.wf() ==> location_root@.is_prefix_of(out@),
    {
        proof {
            if self.wf() {
                lemma_resolve_stays_under_root(location_root@, self.rel_path@);
            }
        }
        join_path(location_root, self.rel_path.as_str())
    }

    /// The same identity as a reference.
    pub fn to_doc_ref(&self) -> (out: DocRef)
        ensures
            out.location_id == self.location_id,
            out.rel_path@ == self.rel_path@,
    {
        DocRef { location_id: self.location_id, rel_path: self.rel_path.clone() }
    }
}

impl From<DocRef> for DocId {
    fn from(doc_ref: DocRef) -> (out: Self)
        ensures
            out.location_id == doc_ref.location_id,
            out.rel_path == doc_ref.rel_path,
    {
        DocId { location_id: doc_ref.location_id, rel_path: doc_ref.rel_path }
    }
}

impl vstd::std_specs::convert::FromSpecImpl<DocRef> for DocId {
    open spec fn obeys_from_spec() -> bool {
        true
    }

    open spec fn from_spec(doc_ref: DocRef) -> Self {
        DocId { location_id: doc_ref.location_id, rel_path: doc_ref.rel_path }
    }
}

/// How one segment moves the depth below the start.
pub open spec fn depth_change(seg: Seq<char>) -> int {
    if is_cur_dir(seg) {
        0
    } else if is_parent_dir(seg) {
        -1
    } else {
        1
    }
}

/// Depth below the start after all of `segs`, steps upwards counted as they come.
pub open spec fn depth(segs: Seq<Seq<char>>) -> int
    decreases segs.len(),
{
    if segs.len() == 0 {
        0
    } else {
        depth_change(segs[0]) + depth(segs.drop_first())
    }
}

/// Some prefix of the segments climbs above the depth `start`.
pub open spec fn climbs_above(segs: Seq<Seq<char>>, start: int) -> bool {
    exists|k: int| 0 <= k <= segs.len() && start + #[trigger] depth(segs.take(k)) < 0
}

/// A relative path whose steps upwards would leave its root.
pub open spec fn escapes_root(path: Seq<char>) -> bool {
    climbs_above(segments(path), 0)
}

/// No separator occurs in the segment.
pub open spec fn has_no_sep(seg: Seq<char>) -> bool {
    forall|j: int| 0 <= j < seg.len() ==> seg[j] != '/'
}

/// Every segment names something and holds no separator.
pub open spec fn all_clean(stack: Seq<Seq<char>>) -> bool {
    forall|i: int| 0 <= i < stack.len() ==> is_normal_segment(#[trigger] stack[i]) && has_no_sep(stack[i])
}

proof fn lemma_walk_depth(segs: Seq<Seq<char>>, stack: Seq<Seq<char>>)
    ensures
        walk(segs, stack) is None <==> climbs_above(segs, stack.len() as int),
        walk(segs, stack) matches Some(out) ==> out.len() == stack.len() + depth(segs),
    decreases segs.len(),
{
    if segs.len() == 0 {
        assert forall|k: int| 0 <= k <= segs.len() implies stack.len() + #[trigger] depth(
            segs.take(k),
        ) >= 0 by {
            assert(segs.take(k).len() == 0);
        }
    } else {
        let rest = segs.drop_first();
        match step(stack, segs[0]) {
            None => {
                assert(segs.take(1)[0] == segs[0]);
                assert(segs.take(1).drop_first().len() == 0);
                assert(depth(segs.take(1).drop_first()) == 0);
                assert(depth_change(segs[0]) == -1);
                assert(depth(segs.take(1)) == -1);
            },
            Some(next) => {
                lemma_walk_depth(rest, next);
                assert(next.len() == stack.len() + depth_change(segs[0]));
                if climbs_above(rest, next.len() as int) {
                    let k = choose|k: int|
                        0 <= k <= rest.len() && next.len() + #[trigger] depth(rest.take(k)) < 0;
                    assert(segs.take(k + 1).drop_first() =~= rest.take(k));
                    assert(segs.take(k + 1)[0] == segs[0]);
                    assert(stack.len() + depth(segs.take(k + 1)) < 0);
                }
                if climbs_above(segs, stack.len() as int) {
                    let k = choose|k: int|
                        0 <= k <= segs.len() && stack.len() + #[trigger] depth(segs.take(k)) < 0;
                    if k == 0 {
                        assert(segs.take(0).len() == 0);
                    } else {
                        assert(segs.take(k).drop_first() =~= rest.take(k - 1));
                        assert(segs.take(k)[0] == segs[0]);
                        assert(next.len() + depth(rest.take(k - 1)) < 0);
                    }
                }
            },
        }
    }
}

/// A relative path is refused as a traversal attempt exactly when its steps
/// upwards would leave the root.
pub proof fn lemma_escape_is_refused(path: Seq<char>)
    requires
        path.len() > 0,
        path[0] != '/',
    ensures
        escapes_root(path) <==> normalize_spec(path) == Normalized::Traversal,
{
    lemma_walk_depth(segments(path), Seq::empty());
}

proof fn lemma_segments_no_sep(s: Seq<char>)
    ensures
        forall|i: int| 0 <= i < segments(s).len() ==> has_no_sep(#[trigger] segments(s)[i]),
        segments(s).len() >= 1,
    decreases s.len(),
{
    lemma_first_sep_bounds(s);
    let k = first_sep(s);
    if 0 <= k < s.len() {
        lemma_segments_no_sep(s.skip(k + 1));
        let tail = segments(s.skip(k + 1));
        assert forall|i: int| 0 <= i < segments(s).len() implies has_no_sep(
            #[trigger] segments(s)[i],
        ) by {
            if i == 0 {
                assert(segments(s)[0] == s.take(k));
            } else {
                assert(segments(s)[i] == tail[i - 1]);
            }
        }
    } else {
        assert(segments(s)[0] == s);
    }
}

proof fn lemma_walk_clean(segs: Seq<Seq<char>>, stack: Seq<Seq<char>>)
    requires
        all_clean(stack),
        forall|i: int| 0 <= i < segs.len() ==> has_no_sep(#[trigger] segs[i]),
    ensures
        walk(segs, stack) matches Some(out) ==> all_clean(out),
    decreases segs.len(),
{
    if segs.len() > 0 {
        match step(stack, segs[0]) {
            None => {},
            Some(next) => {
                assert(all_clean(next)) by {
                    assert forall|i: int| 0 <= i < next.len() implies is_normal_segment(
                        #[trigger] next[i],
                    ) && has_no_sep(next[i]) by {
                        if i < stack.len() {
                            assert(next[i] == stack[i]);
                        }
                    }
                }
                let rest = segs.drop_first();
                assert forall|i: int| 0 <= i < rest.len() implies has_no_sep(#[trigger] rest[i]) by {
                    assert(rest[i] == segs[i + 1]);
                }
                lemma_walk_clean(rest, next);
            },
        }
    }
}

proof fn lemma_segments_concat(a: Seq<char>, b: Seq<char>)
    ensures
        segments(a + seq!['/'] + b) == segments(a) + segments(b),
    decreases a.len(),
{
    let whole = a + seq!['/'] + b;
    lemma_first_sep_bounds(a);
    let k = first_sep(a);
    assert forall|j: int| 0 <= j < k implies whole[j] != '/' by {
        assert(whole[j] == a[j]);
    }
    assert(whole[k] == '/') by {
        if k < a.len() {
            assert(whole[k] == a[k]);
        }
    }
    lemma_first_sep_is(whole, k);
    assert(whole.take(k) =~= a.take(k));
    if k < a.len() {
        assert(whole.skip(k + 1) =~= a.skip(k + 1) + seq!['/'] + b);
        lemma_segments_concat(a.skip(k + 1), b);
        assert(segments(whole) =~= segments(a) + segments(b));
    } else {
        assert(whole.skip(k + 1) =~= b);
        assert(a.take(k) =~= a);
        assert(segments(a) == seq![a]);
        assert(segments(whole) =~= segments(a) + segments(b));
    }
}

proof fn lemma_segments_of_join(stack: Seq<Seq<char>>)
    requires
        stack.len() >= 1,
        all_clean(stack),
    ensures
        segments(join(stack)) == stack,
    decreases stack.len(),
{
    let last = stack.last();
    assert(has_no_sep(last));
    lemma_first_sep_is(last, last.len() as int);
    assert(segments(last) == seq![last]);
    if stack.len() == 1 {
        assert(stack =~= seq![last]);
    } else {
        let init = stack.drop_last();
        assert(all_clean(init)) by {
            assert forall|i: int| 0 <= i < init.len() implies is_normal_segment(
                #[trigger] init[i],
            ) && has_no_sep(init[i]) by {
                assert(init[i] == stack[i]);
            }
        }
        lemma_segments_of_join(init);
        lemma_segments_concat(join(init), last);
        assert(init + seq![last] =~= stack);
    }
}

proof fn lemma_walk_of_clean(segs: Seq<Seq<char>>, stack: Seq<Seq<char>>)
    requires
        all_clean(segs),
    ensures
        walk(segs, stack) == Some(stack + segs),
    decreases segs.len(),
{
    if segs.len() == 0 {
        assert(stack + segs =~= stack);
    } else {
        let rest = segs.drop_first();
        assert(is_normal_segment(segs[0]));
        assert(all_clean(rest)) by {
            assert forall|i: int| 0 <= i < rest.len() implies is_normal_segment(
                #[trigger] rest[i],
            ) && has_no_sep(rest[i]) by {
                assert(rest[i] == segs[i + 1]);
            }
        }
        lemma_walk_of_clean(rest, stack.push(segs[0]));
        assert(stack.push(segs[0]) + rest =~= stack + segs);
    }
}

proof fn lemma_join_starts_with_first(stack: Seq<Seq<char>>)
    requires
        stack.len() >= 1,
        stack[0].len() > 0,
    ensures
        join(stack).len() > 0,
        join(stack)[0] == stack[0][0],
    decreases stack.len(),
{
    if stack.len() > 1 {
        let init = stack.drop_last();
        assert(init[0] == stack[0]);
        lemma_join_starts_with_first(init);
    }
}

/// What normalisation returns is a path that normalisation leaves as it is.
pub proof fn lemma_normalize_idempotent(path: Seq<char>)
    ensures
        normalize_spec(path) matches Normalized::Path(p) ==> is_normalized(p) && p.len() > 0 && p[0]
            != '/',
{
    if let Normalized::Path(p) = normalize_spec(path) {
        let stack = walk(segments(path), Seq::empty()).unwrap();
        lemma_segments_no_sep(path);
        lemma_walk_clean(segments(path), Seq::empty());
        assert(is_normal_segment(stack[0]));
        lemma_join_starts_with_first(stack);
        assert(has_no_sep(stack[0]));
        lemma_segments_of_join(stack);
        lemma_walk_of_clean(stack, Seq::empty());
        assert(Seq::<Seq<char>>::empty() + stack =~= stack);
    }
}

/// A normalised path resolved against a root lies under that root: the root
/// is a prefix of the result, and no segment of the path steps upwards.
pub proof fn lemma_resolve_stays_under_root(root: Seq<char>, rel: Seq<char>)
    requires
        is_normalized(rel),
    ensures
        root.is_prefix_of(join_path_spec(root, rel)),
        !escapes_root(rel),
{
    lemma_walk_depth(segments(rel), Seq::empty());
    let out = join_path_spec(root, rel);
    assert(rel.len() > 0 && rel[0] != '/');
    if root.len() == 0 {
    } else if root.last() == '/' {
        assert(out.subrange(0, root.len() as int) =~= root);
    } else {
        assert(out.subrange(0, root.len() as int) =~= root);
    }
}

} // verus!
