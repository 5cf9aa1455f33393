//! Paths into nested documents: `a.b.c` names the field `c` of the
//! document in field `b` of the document in field `a`.

use vstd::prelude::*;
use vstd::string::StrSliceExecFns;

verus! {

/// The segments joined, with a dot between each two.
pub open spec fn join_dots(segments: Seq<Seq<char>>) -> Seq<char>
    decreases segments.len(),
{
    if segments.len() == 0 {
        seq![]
    } else if segments.len() == 1 {
        segments[0]
    } else {
        join_dots(segments.drop_last()) + seq!['.'] + segments.last()
    }
}

/// The segments of a path: the text between the dots, with one segment
/// more than there are dots.
pub open spec fn is_segmentation(path: Seq<char>, segments: Seq<Seq<char>>) -> bool {
    &&& segments.len() >= 1
    &&& join_dots(segments) == path
    &&& forall|i: int| 0 <= i < segments.len() ==> !(#[trigger] segments[i]).contains('.')
}

/// The strings of a list as characters.
pub open spec fn texts(v: Seq<String>) -> Seq<Seq<char>> {
    v.map_values(|s: String| s@)
}

/// Marks the types that name a path into a document.
pub trait SealedDocPath {
}

/// A path into nested documents.
pub trait DocPath: SealedDocPath {
    /// The names of the fields along the path, as characters.
    spec fn path_view(&self) -> Seq<Seq<char>>;

    /// The names of the fields along the path.
    fn into_segments(self) -> (r: Vec<String>)
        ensures
            texts(r@) == self.path_view(),
    ;
}

impl<'a> SealedDocPath for &'a str {
}

impl SealedDocPath for Vec<String> {
}

proof fn lemma_join_push(segments: Seq<Seq<char>>, a: Seq<char>)
    requires
        segments.len() >= 1,
    ensures
        join_dots(segments.push(a)) == join_dots(segments) + seq!['.'] + a,
{
    assert(segments.push(a).drop_last() =~= segments);
}

proof fn lemma_join_extend_last(segments: Seq<Seq<char>>, c: char)
    requires
        segments.len() >= 1,
    ensures
        join_dots(segments.update(segments.len() - 1, segments.last().push(c))) == join_dots(segments).push(c),
{
    let t = segments.update(segments.len() - 1, segments.last().push(c));
    if segments.len() == 1 {
        assert(t[0] == segments[0].push(c));
    } else {
        assert(t.drop_last() =~= segments.drop_last());
        assert(join_dots(t) == join_dots(segments.drop_last()) + seq!['.'] + segments.last().push(c));
        assert(join_dots(segments.drop_last()) + seq!['.'] + segments.last().push(c) =~= (join_dots(
            segments.drop_last(),
        ) + seq!['.'] + segments.last()).push(c));
    }
}

/// Splits a path at its dots.
pub fn split_path(path: &str) -> (r: Vec<String>)
    ensures
        is_segmentation(path@, texts(r@)),
{
    let len = path.unicode_len();
    let mut segments: Vec<String> = Vec::new();
    let mut start: usize = 0;
    let mut i: usize = 0;
    while i < len
        invariant
            len == path@.len(),
            start <= i <= len,
            is_segmentation(path@.subrange(0, i as int), texts(segments@).push(path@.subrange(start as int, i as int))),
        decreases len - i,
    {
        let c = path.get_char(i);
        let ghost cur = path@.subrange(start as int, i as int);
        let ghost segs = texts(segments@);
        if c == '.' {
            let sub = path.substring_char(start, i);
            let piece = sub.to_string();
            proof {
                vstd::string::to_string_from_display_ensures_for_str(sub, piece);
            }
            segments.push(piece);
            start = i + 1;
            i = i + 1;
            proof {
                assert(texts(segments@) =~= segs.push(cur));
                lemma_join_push(segs.push(cur), seq![]);
                assert(path@.subrange(start as int, i as int) =~= seq![]);
                assert(path@.subrange(0, i as int) =~= path@.subrange(0, i - 1) + seq!['.'] + seq![]);
                let t = texts(segments@).push(path@.subrange(start as int, i as int));
                assert forall|k: int| 0 <= k < t.len() implies !(#[trigger] t[k]).contains('.') by {
                    if k < t.len() - 1 {
                        assert(t[k] == segs.push(cur)[k]);
                    }
                }
            }
        } else {
            i = i + 1;
            proof {
                assert(path@.subrange(start as int, i as int) =~= cur.push(c));
                lemma_join_extend_last(segs.push(cur), c);
                assert(segs.push(cur).update(segs.len() as int, cur.push(c)) =~= segs.push(
                    path@.subrange(start as int, i as int),
                ));
                assert(path@.subrange(0, i as int) =~= path@.subrange(0, i - 1).push(c));
                let t = segs.push(path@.subrange(start as int, i as int));
                assert forall|k: int| 0 <= k < t.len() implies !(#[trigger] t[k]).contains('.') by {
                    if k < t.len() - 1 {
                        assert(t[k] == segs.push(cur)[k]);
                    } else {
                        assert(t[k] == cur.push(c));
                        if cur.push(c).contains('.') {
                            let j = choose|j: int| 0 <= j < cur.push(c).len() && cur.push(c)[j] == '.';
                            if j < cur.len() {
                                assert(cur[j] == '.');
                                assert(segs.push(cur)[segs.len() as int] == cur);
                            }
                        }
                    }
                }
            }
        }
    }
    let sub = path.substring_char(start, len);
    let last = sub.to_string();
    proof {
        vstd::string::to_string_from_display_ensures_for_str(sub, last);
    }
    let ghost segs = texts(segments@);
    segments.push(last);
    proof {
        assert(texts(segments@) =~= segs.push(path@.subrange(start as int, len as int)));
        assert(path@.subrange(0, len as int) =~= path@);
    }
    segments
}

impl<'a> DocPath for &'a str {
    open spec fn path_view(&self) -> Seq<Seq<char>> {
        choose|segments: Seq<Seq<char>>| is_segmentation(self@, segments)
    }

    fn into_segments(self) -> (r: Vec<String>) {
        let r = split_path(self);
        proof {
            lemma_segmentation_unique(self@, texts(r@), self.path_view());
        }
        r
    }
}

impl DocPath for Vec<String> {
    open spec fn path_view(&self) -> Seq<Seq<char>> {
        texts(self@)
    }

    fn into_segments(self) -> (r: Vec<String>) {
        self
    }
}

proof fn lemma_join_len(segments: Seq<Seq<char>>)
    requires
        segments.len() >= 1,
    ensures
        join_dots(segments).len() >= segments.last().len(),
        join_dots(segments).subrange(
            join_dots(segments).len() - segments.last().len(),
            join_dots(segments).len() as int,
        ) == segments.last(),
        segments.len() >= 2 ==> join_dots(segments)[join_dots(segments).len() - segments.last().len() - 1]
            == '.',
        segments.len() >= 2 ==> join_dots(segments).subrange(
            0,
            join_dots(segments).len() - segments.last().len() - 1,
        ) == join_dots(segments.drop_last()),
{
    let j = join_dots(segments);
    if segments.len() >= 2 {
        let p = join_dots(segments.drop_last());
        assert(j == p + seq!['.'] + segments.last());
        assert(j.subrange(j.len() - segments.last().len(), j.len() as int) =~= segments.last());
        assert(j.subrange(0, j.len() - segments.last().len() - 1) =~= p);
    } else {
        assert(j.subrange(0, j.len() as int) =~= j);
    }
}

/// A path has one segmentation only: the dots fix where each segment ends.
pub proof fn lemma_segmentation_unique(path: Seq<char>, a: Seq<Seq<char>>, b: Seq<Seq<char>>)
    requires
        is_segmentation(path, a),
        is_segmentation(path, b),
    ensures
        a == b,
    decreases path.len(),
{
    lemma_join_len(a);
    lemma_join_len(b);
    let la = a.last();
    let lb = b.last();
    if la.len() < lb.len() {
        if a.len() >= 2 {
            assert(lb[lb.len() - la.len() - 1] == path[path.len() - la.len() - 1]);
            assert(lb.contains('.'));
        } else {
            assert(la == path);
        }
    } else if lb.len() < la.len() {
        if b.len() >= 2 {
            assert(la[la.len() - lb.len() - 1] == path[path.len() - lb.len() - 1]);
            assert(la.contains('.'));
        } else {
            assert(lb == path);
        }
    } else {
        assert(la =~= lb);
        if a.len() >= 2 && b.len() >= 2 {
            let rest = path.subrange(0, path.len() - la.len() - 1);
            assert forall|i: int| 0 <= i < a.drop_last().len() implies !(#[trigger] a.drop_last()[i]).contains(
                '.',
            ) by {
                assert(a.drop_last()[i] == a[i]);
            }
            assert forall|i: int| 0 <= i < b.drop_last().len() implies !(#[trigger] b.drop_last()[i]).contains(
                '.',
            ) by {
                assert(b.drop_last()[i] == b[i]);
            }
            lemma_segmentation_unique(rest, a.drop_last(), b.drop_last());
            assert(a =~= a.drop_last().push(la));
            assert(b =~= b.drop_last().push(lb));
        } else if a.len() >= 2 {
            assert(path[path.len() - la.len() - 1] == '.');
            assert(b[0] == path);
            assert(b[0].contains('.'));
        } else if b.len() >= 2 {
            assert(path[path.len() - lb.len() - 1] == '.');
            assert(a[0] == path);
            assert(a[0].contains('.'));
        } else {
            assert(a =~= b);
        }
    }
}


/// A stored value as a path lookup sees it: a document, which a path can
/// walk into, a null, or any other value, known by a number that the owner
/// of the document gives it.
#[derive(Debug, PartialEq)]
pub enum DocShape {
    Null,
    Document(Vec<(String, DocShape)>),
    Value(usize),
}

/// The mathematical form of a stored value's shape.
pub enum ShapeSpec {
    Null,
    Document(Seq<(Seq<char>, ShapeSpec)>),
    Value(usize),
}

/// What a shape stands for.
pub open spec fn shape_view(v: DocShape) -> ShapeSpec
    decreases v,
{
    match v {
        DocShape::Null => ShapeSpec::Null,
        DocShape::Value(i) => ShapeSpec::Value(i),
        DocShape::Document(es) => ShapeSpec::Document(
            Seq::new(
                es@.len(),
                |i: int|
                    if 0 <= i < es@.len() {
                        (es@[i].0@, shape_view(es@[i].1))
                    } else {
                        (Seq::empty(), ShapeSpec::Null)
                    },
            ),
        ),
    }
}

/// What the entries of a document stand for.
pub open spec fn entries_view(es: Seq<(String, DocShape)>) -> Seq<(Seq<char>, ShapeSpec)> {
    Seq::new(es.len(), |i: int| (es[i].0@, shape_view(es[i].1)))
}

/// Taking the value at the positions `ps` out of a document: the document
/// without it, and the value. Positions that lead nowhere take nothing.
pub open spec fn take_at(es: Seq<(Seq<char>, ShapeSpec)>, ps: Seq<int>) -> (Seq<(Seq<char>, ShapeSpec)>, ShapeSpec)
    decreases ps.len(),
{
    if ps.len() == 0 || !(0 <= ps[0] < es.len()) {
        (es, ShapeSpec::Null)
    } else if ps.len() == 1 {
        (es.remove(ps[0]), es[ps[0]].1)
    } else {
        match es[ps[0]].1 {
            ShapeSpec::Document(d) => {
                let (rest, v) = take_at(d, ps.drop_first());
                (es.update(ps[0], (es[ps[0]].0, ShapeSpec::Document(rest))), v)
            },
            _ => (es, ShapeSpec::Null),
        }
    }
}

/// Why a path cannot be followed.
#[derive(Debug, PartialEq, Eq)]
pub enum PathError {
    /// The path is empty, or its last field is missing.
    MissingKey(String),
    /// The last field of the path holds a null.
    NullValue(String),
    /// A field on the way to the last one is missing.
    NotPresent,
    /// A field on the way to the last one holds something other than a document.
    UnexpectedType,
}

/// What following a path comes to: the positions of the fields along it,
/// or why it cannot be followed.
pub enum PathOutcome {
    Found(Seq<int>),
    MissingKey(Seq<char>),
    NullValue(Seq<char>),
    NotPresent,
    UnexpectedType,
}

/// Whether entry `j` is the first entry of a document under `key`.
pub open spec fn first_key(es: Seq<(String, DocShape)>, key: Seq<char>, j: int) -> bool {
    &&& 0 <= j < es.len()
    &&& es[j].0@ == key
    &&& forall|k: int| 0 <= k < j ==> (#[trigger] es[k]).0@ != key
}

/// Whether a document has an entry under `key`.
pub open spec fn has_key(es: Seq<(String, DocShape)>, key: Seq<char>) -> bool {
    exists|j: int| 0 <= j < es.len() && (#[trigger] es[j]).0@ == key
}

/// The position of the first entry under `key`.
pub open spec fn key_position(es: Seq<(String, DocShape)>, key: Seq<char>) -> int {
    choose|j: int| first_key(es, key, j)
}

/// Walking from document `es` into the documents under the fields `segs`:
/// the positions of those fields and the entries of the document reached,
/// or why the walk stops.
pub open spec fn walk(es: Seq<(String, DocShape)>, segs: Seq<Seq<char>>) -> Result<
    (Seq<int>, Seq<(String, DocShape)>),
    PathOutcome,
>
    decreases segs.len(),
{
    if segs.len() == 0 {
        Ok((Seq::empty(), es))
    } else if !has_key(es, segs[0]) {
        Err(PathOutcome::NotPresent)
    } else {
        let j = key_position(es, segs[0]);
        match es[j].1 {
            DocShape::Document(d) => match walk(d@, segs.drop_first()) {
                Ok((ps, last)) => Ok((seq![j].add(ps), last)),
                Err(e) => Err(e),
            },
            _ => Err(PathOutcome::UnexpectedType),
        }
    }
}

/// The last field looked up in document `es`: its position, or why there is
/// nothing there.
pub open spec fn last_lookup(es: Seq<(String, DocShape)>, last: Seq<char>) -> PathOutcome {
    if !has_key(es, last) {
        PathOutcome::MissingKey(last)
    } else if es[key_position(es, last)].1 is Null {
        PathOutcome::NullValue(last)
    } else {
        PathOutcome::Found(seq![key_position(es, last)])
    }
}

/// Looking a path up for reading: the walk must reach through every field
/// but the last, and the last field is then looked up in the document the
/// lookup started from.
pub open spec fn read_outcome(root: Seq<(String, DocShape)>, segs: Seq<Seq<char>>) -> PathOutcome {
    if segs.len() == 0 {
        PathOutcome::MissingKey(Seq::empty())
    } else {
        match walk(root, segs.drop_last()) {
            Err(e) => e,
            Ok(_) => last_lookup(root, segs.last()),
        }
    }
}

/// Looking a path up for taking a value out: the walk reaches through every
/// field but the last, and the last field is looked up in the document
/// reached; the positions of all the fields along the path.
pub open spec fn take_outcome(root: Seq<(String, DocShape)>, segs: Seq<Seq<char>>) -> PathOutcome {
    if segs.len() == 0 {
        PathOutcome::MissingKey(Seq::empty())
    } else {
        match walk(root, segs.drop_last()) {
            Err(e) => e,
            Ok((ps, d)) => match last_lookup(d, segs.last()) {
                PathOutcome::Found(p) => PathOutcome::Found(ps + p),
                other => other,
            },
        }
    }
}

/// What a lookup returned, as an outcome.
pub open spec fn outcome_of(r: Result<Vec<usize>, PathError>) -> PathOutcome {
    match r {
        Ok(ps) => PathOutcome::Found(ps@.map_values(|p: usize| p as int)),
        Err(e) => error_outcome(e),
    }
}

/// Why a path could not be followed, as an outcome.
pub open spec fn error_outcome(e: PathError) -> PathOutcome {
    match e {
        PathError::MissingKey(k) => PathOutcome::MissingKey(k@),
        PathError::NullValue(k) => PathOutcome::NullValue(k@),
        PathError::NotPresent => PathOutcome::NotPresent,
        PathError::UnexpectedType => PathOutcome::UnexpectedType,
    }
}

fn same_text(a: &str, b: &str) -> (r: bool)
    ensures
        r == (a@ == b@),
{
    let n = a.unicode_len();
    if n != b.unicode_len() {
        return false;
    }
    let mut i: usize = 0;
    while i < n
        invariant
            n == a@.len(),
            n == b@.len(),
            i <= n,
            forall|k: int| 0 <= k < i ==> a@[k] == b@[k],
        decreases n - i,
    {
        if a.get_char(i) != b.get_char(i) {
            return false;
        }
        i = i + 1;
    }
    assert(a@ =~= b@);
    true
}

proof fn lemma_first_key_unique(es: Seq<(String, DocShape)>, key: Seq<char>, j: int)
    requires
        first_key(es, key, j),
    ensures
        has_key(es, key),
        key_position(es, key) == j,
{
    assert(es[j].0@ == key);
    let c = key_position(es, key);
    assert(first_key(es, key, c));
    if c < j {
        assert(es[c].0@ != key);
    } else if j < c {
        assert(es[j].0@ != key);
    }
}

/// The position of the first entry of a document under `key`, if any.
fn find_key(es: &Vec<(String, DocShape)>, key: &String) -> (r: Option<usize>)
    ensures
        match r {
            Some(j) => first_key(es@, key@, j as int),
            None => !has_key(es@, key@),
        },
{
    let mut i: usize = 0;
    while i < es.len()
        invariant
            i <= es@.len(),
            forall|k: int| 0 <= k < i ==> (#[trigger] es@[k]).0@ != key@,
        decreases es@.len() - i,
    {
        if same_text(es[i].0.as_str(), key.as_str()) {
            return Some(i);
        }
        i = i + 1;
    }
    None
}

/// The positions `prefix` put before those of a walk, if it goes through.
pub open spec fn after_prefix(
    prefix: Seq<int>,
    r: Result<(Seq<int>, Seq<(String, DocShape)>), PathOutcome>,
) -> Result<(Seq<int>, Seq<(String, DocShape)>), PathOutcome> {
    match r {
        Ok((ps, d)) => Ok((prefix + ps, d)),
        Err(e) => Err(e),
    }
}

fn copy_text(s: &String) -> (r: String)
    ensures
        r@ == s@,
{
    <String as vstd::string::StringExecFns>::from_str(s.as_str())
}

/// Walks from `root` into the documents under the first `upto` segments.
fn walk_prefix<'a>(root: &'a Vec<(String, DocShape)>, segments: &Vec<String>, upto: usize) -> (r: Result<
    (Vec<usize>, &'a Vec<(String, DocShape)>),
    PathError,
>)
    requires
        upto <= segments@.len(),
    ensures
        match r {
            Ok((ps, d)) => walk(root@, texts(segments@).subrange(0, upto as int)) == Ok::<
                (Seq<int>, Seq<(String, DocShape)>),
                PathOutcome,
            >((ps@.map_values(|p: usize| p as int), d@)),
            Err(e) => (e is NotPresent || e is UnexpectedType) && walk(
                root@,
                texts(segments@).subrange(0, upto as int),
            ) == Err::<(Seq<int>, Seq<(String, DocShape)>), PathOutcome>(outcome_of(Err(e))),
        },
{
    let ghost t = texts(segments@);
    let mut doc: &'a Vec<(String, DocShape)> = root;
    let mut ps: Vec<usize> = Vec::new();
    let mut i: usize = 0;
    proof {
        let w = walk(root@, t.subrange(0, upto as int));
        match w {
            Ok((p, d)) => {
                assert(Seq::<int>::empty() + p =~= p);
            },
            Err(_) => {},
        }
        assert(ps@.map_values(|p: usize| p as int) =~= Seq::<int>::empty());
    }
    while i < upto
        invariant
            i <= upto <= segments@.len(),
            t == texts(segments@),
            walk(root@, t.subrange(0, upto as int)) == after_prefix(
                ps@.map_values(|p: usize| p as int),
                walk(doc@, t.subrange(i as int, upto as int)),
            ),
        decreases upto - i,
    {
        let ghost rest = t.subrange(i as int, upto as int);
        let ghost pv = ps@.map_values(|p: usize| p as int);
        proof {
            assert(rest[0] == segments@[i as int]@);
            assert(rest.drop_first() =~= t.subrange(i + 1, upto as int));
        }
        match find_key(doc, &segments[i]) {
            None => {
                return Err(PathError::NotPresent);
            },
            Some(j) => {
                proof {
                    lemma_first_key_unique(doc@, rest[0], j as int);
                }
                match &doc[j].1 {
                    DocShape::Document(d) => {
                        let ghost before = ps@;
                        ps.push(j);
                        proof {
                            let inner = walk(d@, t.subrange(i + 1, upto as int));
                            assert(ps@.map_values(|p: usize| p as int) =~= pv.push(j as int));
                            match inner {
                                Ok((q, e)) => {
                                    assert(pv + (seq![j as int].add(q)) =~= pv.push(j as int) + q);
                                },
                                Err(_) => {},
                            }
                        }
                        doc = d;
                    },
                    _ => {
                        return Err(PathError::UnexpectedType);
                    },
                }
            },
        }
        i = i + 1;
    }
    proof {
        assert(t.subrange(i as int, upto as int) =~= Seq::<Seq<char>>::empty());
        let pv = ps@.map_values(|p: usize| p as int);
        assert(pv + Seq::<int>::empty() =~= pv);
    }
    Ok((ps, doc))
}

fn last_position(es: &Vec<(String, DocShape)>, last: &String) -> (r: Result<usize, PathError>)
    ensures
        match last_lookup(es@, last@) {
            PathOutcome::Found(p) => r matches Ok(j) && p == seq![j as int],
            o => r matches Err(e) && outcome_of(Err(e)) == o,
        },
{
    match find_key(es, last) {
        None => Err(PathError::MissingKey(copy_text(last))),
        Some(j) => {
            proof {
                lemma_first_key_unique(es@, last@, j as int);
            }
            match &es[j].1 {
                DocShape::Null => Err(PathError::NullValue(copy_text(last))),
                _ => Ok(j),
            }
        },
    }
}

fn empty_path_error() -> (r: PathError)
    ensures
        outcome_of(Err(r)) == PathOutcome::MissingKey(Seq::empty()),
{
    let k = <String as vstd::string::StringExecFns>::from_str("");
    proof {
        reveal_strlit("");
        assert(k@ =~= Seq::<char>::empty());
    }
    PathError::MissingKey(k)
}

/// Looks a path up for reading: the position of the last field, in the
/// document the lookup starts from, once every field before it leads into
/// a document.
pub fn read_path(root: &Vec<(String, DocShape)>, segments: &Vec<String>) -> (r: Result<Vec<usize>, PathError>)
    ensures
        outcome_of(r) == read_outcome(root@, texts(segments@)),
{
    let n = segments.len();
    if n == 0 {
        return Err(empty_path_error());
    }
    proof {
        assert(texts(segments@).drop_last() =~= texts(segments@).subrange(0, n - 1));
        assert(texts(segments@).last() == segments@[n - 1]@);
    }
    match walk_prefix(root, segments, n - 1) {
        Err(e) => Err(e),
        Ok(_) => match last_position(root, &segments[n - 1]) {
            Err(e) => Err(e),
            Ok(j) => {
                let mut ps: Vec<usize> = Vec::new();
                ps.push(j);
                proof {
                    assert(ps@.map_values(|p: usize| p as int) =~= seq![j as int]);
                }
                Ok(ps)
            },
        },
    }
}

/// Looks a path up for taking a value out: the positions of all its fields,
/// the last one in the document that the fields before it lead into.
pub fn take_path(root: &Vec<(String, DocShape)>, segments: &Vec<String>) -> (r: Result<Vec<usize>, PathError>)
    ensures
        outcome_of(r) == take_outcome(root@, texts(segments@)),
{
    let n = segments.len();
    if n == 0 {
        return Err(empty_path_error());
    }
    proof {
        assert(texts(segments@).drop_last() =~= texts(segments@).subrange(0, n - 1));
        assert(texts(segments@).last() == segments@[n - 1]@);
    }
    match walk_prefix(root, segments, n - 1) {
        Err(e) => Err(e),
        Ok((ps, d)) => match last_position(d, &segments[n - 1]) {
            Err(e) => Err(e),
            Ok(j) => {
                let ghost before = ps@.map_values(|p: usize| p as int);
                let mut ps = ps;
                ps.push(j);
                proof {
                    assert(ps@.map_values(|p: usize| p as int) =~= before + seq![j as int]);
                }
                Ok(ps)
            },
        },
    }
}

fn take_positions(es: Vec<(String, DocShape)>, ps: &Vec<usize>, i: usize) -> (r: (Vec<(String, DocShape)>, DocShape))
    requires
        i <= ps@.len(),
    ensures
        (entries_view(r.0@), shape_view(r.1)) == take_at(
            entries_view(es@),
            ps@.map_values(|p: usize| p as int).subrange(i as int, ps@.len() as int),
        ),
    decreases ps@.len() - i,
{
    let ghost rest = ps@.map_values(|p: usize| p as int).subrange(i as int, ps@.len() as int);
    let ghost ev = entries_view(es@);
    if i == ps.len() {
        return (es, DocShape::Null);
    }
    assert(rest[0] == ps@[i as int] as int);
    let j = ps[i];
    if j >= es.len() {
        return (es, DocShape::Null);
    }
    let mut es = es;
    let ghost before = es@;
    let (key, value) = es.remove(j);
    proof {
        assert(ev[j as int] == (key@, shape_view(value)));
    }
    if i + 1 == ps.len() {
        proof {
            assert(entries_view(es@) =~= ev.remove(j as int));
        }
        return (es, value);
    }
    proof {
        assert(rest.drop_first() =~= ps@.map_values(|p: usize| p as int).subrange(i + 1, ps@.len() as int));
    }
    match value {
        DocShape::Document(d) => {
            let ghost dv = entries_view(d@);
            proof {
                assert(shape_view(DocShape::Document(d)) == ShapeSpec::Document(dv)) by {
                    let inner = match shape_view(DocShape::Document(d)) {
                        ShapeSpec::Document(x) => x,
                        _ => Seq::empty(),
                    };
                    assert(inner =~= dv);
                }
            }
            let (d2, taken) = take_positions(d, ps, i + 1);
            let ghost d2v = entries_view(d2@);
            let node = DocShape::Document(d2);
            proof {
                assert(shape_view(node) == ShapeSpec::Document(d2v)) by {
                    let inner = match shape_view(node) {
                        ShapeSpec::Document(x) => x,
                        _ => Seq::empty(),
                    };
                    assert(inner =~= d2v);
                }
            }
            let ghost mid = es@;
            es.insert(j, (key, node));
            proof {
                assert(entries_view(es@) =~= ev.update(j as int, (ev[j as int].0, ShapeSpec::Document(d2v))));
            }
            (es, taken)
        },
        other => {
            let ghost ov = shape_view(other);
            es.insert(j, (key, other));
            proof {
                assert(es@ =~= before);
                assert(!(ov is Document));
            }
            (es, DocShape::Null)
        },
    }
}

/// Takes the value at the end of a path out of a document: the last field
/// is removed from the document that the fields before it lead into, and
/// its value handed back. A path that cannot be followed leaves the
/// document as it was.
pub fn take_value(root: &mut Vec<(String, DocShape)>, segments: &Vec<String>) -> (r: Result<DocShape, PathError>)
    ensures
        match take_outcome(old(root)@, texts(segments@)) {
            PathOutcome::Found(ps) => r matches Ok(v) && (entries_view(final(root)@), shape_view(v))
                == take_at(entries_view(old(root)@), ps),
            o => r matches Err(e) && error_outcome(e) == o && final(root)@ == old(root)@,
        },
{
    match take_path(root, segments) {
        Err(e) => Err(e),
        Ok(ps) => {
            let mut owned: Vec<(String, DocShape)> = Vec::new();
            std::mem::swap(&mut owned, root);
            let (rest, taken) = take_positions(owned, &ps, 0);
            proof {
                assert(ps@.map_values(|p: usize| p as int).subrange(0, ps@.len() as int) =~= ps@.map_values(
                    |p: usize| p as int,
                ));
            }
            *root = rest;
            Ok(taken)
        },
    }
}

} // verus!
