//! Paths into a document.
//!
//! An absolute path names a node by the keys and indices that lead to it from
//! the root. As text it is a slash, then the segments with one slash between
//! them; the root is the single slash. A reference is the raw text found
//! between the braces of a placeholder; read from the place of the leaf that
//! holds it, it names an absolute path.
use crate::text::{chars_of, push_decimal, text_of};
use vstd::prelude::*;

verus! {

/// The pieces of a text between its slashes, empty pieces included. A text
/// without a slash is one piece.
pub open spec fn split_slash(s: Seq<char>) -> Seq<Seq<char>>
    decreases s.len(),
{
    if s.len() == 0 {
        seq![Seq::<char>::empty()]
    } else {
        let before = split_slash(s.drop_last());
        if s.last() == '/' {
            before.push(Seq::<char>::empty())
        } else {
            before.drop_last().push(before.last().push(s.last()))
        }
    }
}

/// The piece that steps up to the parent: two dots.
pub open spec fn up_piece() -> Seq<char> {
    seq!['.', '.']
}

/// One step from a position, given as the segments that lead to it.
///
/// An empty piece stays in place. In a relative walk the piece `..` steps up
/// to the parent, and stays in place at the root. Every other piece steps down
/// to the child of that name.
pub open spec fn advance(stack: Seq<Seq<char>>, piece: Seq<char>, relative: bool) -> Seq<
    Seq<char>,
> {
    if piece.len() == 0 {
        stack
    } else if relative && piece == up_piece() {
        if stack.len() > 0 {
            stack.drop_last()
        } else {
            stack
        }
    } else {
        stack.push(piece)
    }
}

/// The position reached from `stack` by taking the pieces as steps, first to last.
pub open spec fn walk(stack: Seq<Seq<char>>, pieces: Seq<Seq<char>>, relative: bool) -> Seq<
    Seq<char>,
>
    decreases pieces.len(),
{
    if pieces.len() == 0 {
        stack
    } else {
        advance(walk(stack, pieces.drop_last(), relative), pieces.last(), relative)
    }
}

/// The segments of a path text: its pieces between slashes that are not empty.
pub open spec fn segments(s: Seq<char>) -> Seq<Seq<char>> {
    walk(Seq::empty(), split_slash(s), false)
}

/// Each segment behind a slash of its own.
pub open spec fn joined(segs: Seq<Seq<char>>) -> Seq<char>
    decreases segs.len(),
{
    if segs.len() == 0 {
        Seq::<char>::empty()
    } else {
        joined(segs.drop_last()) + seq!['/'] + segs.last()
    }
}

/// The text of the path with the given segments. The root is `/`.
pub open spec fn render(segs: Seq<Seq<char>>) -> Seq<char> {
    if segs.len() == 0 {
        seq!['/']
    } else {
        joined(segs)
    }
}

/// The canonical text of the path that a text names.
pub open spec fn canonical(s: Seq<char>) -> Seq<char> {
    render(segments(s))
}

/// A text is canonical when it is the text of the path that it names: it
/// starts with one slash, and but for the root it neither ends in a slash nor
/// holds two slashes in a row.
pub open spec fn is_canonical(s: Seq<char>) -> bool {
    s == canonical(s)
}

/// The path below `base` that `name` leads to. A name without a slash is one
/// step down; an empty name stays at `base`.
pub open spec fn child_path(base: Seq<char>, name: Seq<char>) -> Seq<char> {
    render(walk(segments(base), split_slash(name), false))
}

/// The segments of the parent; the root is its own parent.
pub open spec fn parent_segments(segs: Seq<Seq<char>>) -> Seq<Seq<char>> {
    if segs.len() > 0 {
        segs.drop_last()
    } else {
        segs
    }
}

/// The path that a relative reference names when it stands in the leaf at
/// `base`. The walk starts at the parent of the leaf, so a plain name is a
/// sibling of the leaf. Stepping up from the root stays at the root.
pub open spec fn resolve_relative(base: Seq<char>, reference: Seq<char>) -> Seq<char> {
    render(walk(parent_segments(segments(base)), split_slash(reference), true))
}

/// A reference that starts with a slash is absolute.
pub open spec fn is_absolute(reference: Seq<char>) -> bool {
    reference.len() > 0 && reference[0] == '/'
}

/// The path that a reference names when it stands in the leaf at `base`: an
/// absolute reference names its own path, whatever the leaf.
pub open spec fn reference_target(base: Seq<char>, reference: Seq<char>) -> Seq<char> {
    if is_absolute(reference) {
        canonical(reference)
    } else {
        resolve_relative(base, reference)
    }
}

/// A segment is a run of one or more characters without a slash.
pub open spec fn is_segment(piece: Seq<char>) -> bool {
    piece.len() > 0 && forall|i: int| 0 <= i < piece.len() ==> piece[i] != '/'
}

/// Every element is a segment.
pub open spec fn all_segments(segs: Seq<Seq<char>>) -> bool {
    forall|i: int| 0 <= i < segs.len() ==> is_segment(#[trigger] segs[i])
}

/// The rows of a table of characters, each as a sequence.
pub open spec fn rows(v: Vec<Vec<char>>) -> Seq<Seq<char>> {
    Seq::new(v@.len(), |i: int| v@[i]@)
}

/// A text splits into one piece at least, and no piece holds a slash.
pub proof fn lemma_split_slash(s: Seq<char>)
    ensures
        split_slash(s).len() >= 1,
        forall|k: int, i: int|
            0 <= k < split_slash(s).len() && 0 <= i < split_slash(s)[k].len()
                ==> #[trigger] split_slash(s)[k][i] != '/',
    decreases s.len(),
{
    if s.len() > 0 {
        lemma_split_slash(s.drop_last());
    }
}

/// Behind a text, a slash and a run without a slash add that run as one more piece.
pub proof fn lemma_split_slash_append(s: Seq<char>, piece: Seq<char>)
    requires
        forall|i: int| 0 <= i < piece.len() ==> piece[i] != '/',
    ensures
        split_slash(s + seq!['/'] + piece) == split_slash(s).push(piece),
    decreases piece.len(),
{
    let whole = s + seq!['/'] + piece;
    if piece.len() == 0 {
        assert(whole.drop_last() =~= s);
        assert(piece =~= Seq::<char>::empty());
    } else {
        let shorter = piece.drop_last();
        lemma_split_slash_append(s, shorter);
        assert(whole.drop_last() =~= s + seq!['/'] + shorter);
        assert(whole.last() == piece.last());
        let before = split_slash(s).push(shorter);
        assert(before.drop_last() =~= split_slash(s));
        assert(before.last().push(piece.last()) =~= piece);
    }
}

/// A walk from segments, over the pieces of a text, ends on segments.
pub proof fn lemma_walk_segments(stack: Seq<Seq<char>>, pieces: Seq<Seq<char>>, relative: bool)
    requires
        all_segments(stack),
        forall|k: int, i: int|
            0 <= k < pieces.len() && 0 <= i < pieces[k].len() ==> #[trigger] pieces[k][i] != '/',
    ensures
        all_segments(walk(stack, pieces, relative)),
    decreases pieces.len(),
{
    if pieces.len() > 0 {
        lemma_walk_segments(stack, pieces.drop_last(), relative);
        let before = walk(stack, pieces.drop_last(), relative);
        let piece = pieces.last();
        assert(forall|i: int| 0 <= i < piece.len() ==> piece[i] != '/') by {
            assert forall|i: int| 0 <= i < piece.len() implies piece[i] != '/' by {
                assert(pieces[pieces.len() - 1][i] != '/');
            }
        }
    }
}

/// The text of a path splits into that path's segments again.
pub proof fn lemma_segments_of_joined(segs: Seq<Seq<char>>)
    requires
        all_segments(segs),
    ensures
        segs.len() > 0 ==> split_slash(joined(segs)) == seq![Seq::<char>::empty()] + segs,
        segments(render(segs)) == segs,
    decreases segs.len(),
{
    let empty = Seq::<char>::empty();
    if segs.len() == 0 {
        let root: Seq<char> = seq!['/'];
        assert(root.drop_last() =~= empty);
        assert(split_slash(root.drop_last()) == seq![empty]);
        assert(split_slash(root) == seq![empty].push(empty));
        let two = seq![empty].push(empty);
        assert(two.drop_last() =~= seq![empty]);
        let none = Seq::<Seq<char>>::empty();
        assert(seq![empty].drop_last() =~= none);
        assert(walk(none, none, false) == none);
        assert(seq![empty].last() == empty);
        assert(walk(none, seq![empty], false) == none);
        assert(walk(Seq::empty(), two, false) == Seq::<Seq<char>>::empty());
        assert(segments(render(segs)) =~= segs);
    } else {
        let init = segs.drop_last();
        let last = segs.last();
        assert(is_segment(last));
        assert(all_segments(init)) by {
            assert forall|i: int| 0 <= i < init.len() implies is_segment(#[trigger] init[i]) by {
                assert(init[i] == segs[i]);
            }
        }
        lemma_segments_of_joined(init);
        lemma_split_slash_append(joined(init), last);
        let pieces = split_slash(joined(segs));
        assert(pieces == split_slash(joined(init)).push(last));
        if init.len() == 0 {
            assert(joined(init) =~= empty);
            assert(split_slash(joined(init)) == seq![empty]);
        }
        assert(pieces =~= seq![empty] + segs);
        lemma_walk_skips_first_empty(segs);
    }
}

/// A walk down from the root over an empty piece and then segments ends on those segments.
proof fn lemma_walk_skips_first_empty(segs: Seq<Seq<char>>)
    requires
        all_segments(segs),
    ensures
        walk(Seq::empty(), seq![Seq::<char>::empty()] + segs, false) == segs,
    decreases segs.len(),
{
    let empty = Seq::<char>::empty();
    let pieces = seq![empty] + segs;
    if segs.len() == 0 {
        assert(pieces =~= seq![empty]);
        let none = Seq::<Seq<char>>::empty();
        assert(pieces.drop_last() =~= none);
        assert(walk(none, none, false) == none);
        assert(walk(Seq::empty(), pieces, false) =~= segs);
    } else {
        let init = segs.drop_last();
        assert(all_segments(init)) by {
            assert forall|i: int| 0 <= i < init.len() implies is_segment(#[trigger] init[i]) by {
                assert(init[i] == segs[i]);
            }
        }
        lemma_walk_skips_first_empty(init);
        assert(pieces.drop_last() =~= seq![empty] + init);
        assert(pieces.last() == segs.last());
        assert(is_segment(segs.last()));
        assert(init.push(segs.last()) =~= segs);
    }
}

/// The segments of any text are segments, and its canonical text is canonical.
pub proof fn lemma_canonical(s: Seq<char>)
    ensures
        all_segments(segments(s)),
        segments(canonical(s)) == segments(s),
        is_canonical(canonical(s)),
{
    lemma_split_slash(s);
    lemma_walk_segments(Seq::empty(), split_slash(s), false);
    lemma_segments_of_joined(segments(s));
}

/// Two canonical texts are the same path exactly when they have the same segments.
pub proof fn lemma_equal_paths_equal_segments(p: Seq<char>, q: Seq<char>)
    requires
        is_canonical(p),
        is_canonical(q),
    ensures
        p == q <==> segments(p) == segments(q),
{
}

/// Paths with different segments have different texts.
pub proof fn lemma_render_injective(a: Seq<Seq<char>>, b: Seq<Seq<char>>)
    requires
        all_segments(a),
        all_segments(b),
        render(a) == render(b),
    ensures
        a == b,
{
    lemma_segments_of_joined(a);
    lemma_segments_of_joined(b);
}

/// Takes one step from the position held in `stack`.
fn take_step(stack: &mut Vec<Vec<char>>, piece: Vec<char>, relative: bool)
    ensures
        rows(*final(stack)) == advance(rows(*old(stack)), piece@, relative),
{
    if piece.len() == 0 {
    } else if relative && piece.len() == 2 && piece[0] == '.' && piece[1] == '.' {
        assert(piece@ =~= up_piece());
        if stack.len() > 0 {
            stack.pop();
            assert(rows(*stack) =~= rows(*old(stack)).drop_last());
        }
    } else {
        assert(relative ==> piece@ != up_piece()) by {
            if relative && piece@ == up_piece() {
                assert(up_piece().len() == 2);
                assert(up_piece()[0] == '.');
                assert(up_piece()[1] == '.');
            }
        }
        stack.push(piece);
        assert(rows(*stack) =~= rows(*old(stack)).push(piece@));
    }
}

/// Walks from the position held in `start` over the pieces of `text`.
fn walk_text(start: Vec<Vec<char>>, text: &Vec<char>, relative: bool) -> (out: Vec<Vec<char>>)
    ensures
        rows(out) == walk(rows(start), split_slash(text@), relative),
{
    let mut stack = start;
    let mut piece: Vec<char> = Vec::new();
    let mut i: usize = 0;
    assert(text@.take(0) =~= Seq::<char>::empty());
    assert(split_slash(text@.take(0)).drop_last() =~= Seq::<Seq<char>>::empty());
    while i < text.len()
        invariant
            i <= text.len(),
            split_slash(text@.take(i as int)).len() >= 1,
            piece@ == split_slash(text@.take(i as int)).last(),
            rows(stack) == walk(
                rows(start),
                split_slash(text@.take(i as int)).drop_last(),
                relative,
            ),
        decreases text.len() - i,
    {
        let c = text[i];
        let ghost before = split_slash(text@.take(i as int));
        proof {
            assert(text@.take(i + 1).drop_last() =~= text@.take(i as int));
            assert(text@.take(i + 1).last() == c);
            lemma_split_slash(text@.take(i + 1));
        }
        if c == '/' {
            take_step(&mut stack, piece, relative);
            piece = Vec::new();
            proof {
                let after = split_slash(text@.take(i + 1));
                assert(after == before.push(Seq::<char>::empty()));
                assert(after.drop_last() =~= before);
            }
        } else {
            piece.push(c);
            proof {
                let after = split_slash(text@.take(i + 1));
                assert(after == before.drop_last().push(before.last().push(c)));
                assert(after.drop_last() =~= before.drop_last());
            }
        }
        i += 1;
    }
    assert(text@.take(text.len() as int) =~= text@);
    take_step(&mut stack, piece, relative);
    stack
}

/// Writes the text of the path with the given segments.
fn render_segments(segs: &Vec<Vec<char>>) -> (out: Vec<char>)
    ensures
        out@ == render(rows(*segs)),
{
    let mut out: Vec<char> = Vec::new();
    if segs.len() == 0 {
        out.push('/');
        assert(out@ =~= seq!['/']);
        return out;
    }
    let mut i: usize = 0;
    assert(rows(*segs).take(0) =~= Seq::<Seq<char>>::empty());
    while i < segs.len()
        invariant
            i <= segs.len(),
            out@ == joined(rows(*segs).take(i as int)),
        decreases segs.len() - i,
    {
        let seg = &segs[i];
        let ghost start = out@;
        out.push('/');
        let mut j: usize = 0;
        while j < seg.len()
            invariant
                j <= seg.len(),
                out@ == start + seq!['/'] + seg@.take(j as int),
            decreases seg.len() - j,
        {
            out.push(seg[j]);
            assert(seg@.take(j + 1) =~= seg@.take(j as int).push(seg@[j as int]));
            j += 1;
        }
        proof {
            assert(seg@.take(seg.len() as int) =~= seg@);
            let upto = rows(*segs).take(i + 1);
            assert(upto.drop_last() =~= rows(*segs).take(i as int));
            assert(upto.last() == seg@);
        }
        i += 1;
    }
    assert(rows(*segs).take(segs.len() as int) =~= rows(*segs));
    out
}

/// The segments of a text.
fn segments_of(text: &str) -> (out: Vec<Vec<char>>)
    ensures
        rows(out) == segments(text@),
{
    let chars = chars_of(text);
    let start: Vec<Vec<char>> = Vec::new();
    assert(rows(start) =~= Seq::<Seq<char>>::empty());
    walk_text(start, &chars, false)
}

/// The canonical address of a node: a slash, then the segments that lead to
/// the node from the root, one slash between them. The root is `/`.
#[derive(Debug, PartialEq, Eq, Hash)]
pub struct AbsolutePath {
    text: String,
}

/// The text of a reference as it stands between the braces of a placeholder.
#[derive(Debug, Clone, PartialEq, Eq, Hash)]
pub struct RelativePath {
    text: String,
}

impl View for AbsolutePath {
    type V = Seq<char>;

    closed spec fn view(&self) -> Seq<char> {
        self.text@
    }
}

impl View for RelativePath {
    type V = Seq<char>;

    closed spec fn view(&self) -> Seq<char> {
        self.text@
    }
}

impl AbsolutePath {
    #[verifier::type_invariant]
    spec fn holds_canonical_text(self) -> bool {
        is_canonical(self.text@)
    }

    /// The path with the given segments.
    fn from_segments(segs: &Vec<Vec<char>>) -> (out: AbsolutePath)
        requires
            all_segments(rows(*segs)),
        ensures
            out@ == render(rows(*segs)),
            is_canonical(out@),
    {
        let chars = render_segments(segs);
        proof {
            lemma_segments_of_joined(rows(*segs));
        }
        AbsolutePath { text: text_of(&chars) }
    }

    /// The path that `path` names: its segments are the pieces of `path`
    /// between slashes that are not empty.
    pub fn new(path: &str) -> (out: AbsolutePath)
        ensures
            out@ == canonical(path@),
            is_canonical(out@),
    {
        let segs = segments_of(path);
        proof {
            lemma_canonical(path@);
        }
        AbsolutePath::from_segments(&segs)
    }

    /// The canonical text of the path.
    pub fn as_str(&self) -> (out: &str)
        ensures
            out@ == self@,
            is_canonical(out@),
    {
        proof {
            use_type_invariant(self);
        }
        self.text.as_str()
    }

    /// The path that `relative_path` names when it stands in the leaf at this
    /// path: the walk starts at the parent of the leaf.
    pub fn resolve_with(&self, relative_path: &RelativePath) -> (out: AbsolutePath)
        ensures
            out@ == resolve_relative(self@, relative_path@),
            is_canonical(out@),
    {
        let mut stack = segments_of(self.text.as_str());
        let ghost base = rows(stack);
        if stack.len() > 0 {
            stack.pop();
            assert(rows(stack) =~= base.drop_last());
        }
        let steps = chars_of(relative_path.text.as_str());
        proof {
            lemma_canonical(self.text@);
            assert(all_segments(rows(stack))) by {
                assert forall|i: int| 0 <= i < rows(stack).len() implies is_segment(
                    #[trigger] rows(stack)[i],
                ) by {
                    assert(rows(stack)[i] == base[i]);
                }
            }
            lemma_split_slash(steps@);
            lemma_walk_segments(rows(stack), split_slash(steps@), true);
        }
        let reached = walk_text(stack, &steps, true);
        AbsolutePath::from_segments(&reached)
    }

    /// The path below this one that `path` leads to.
    pub fn append(&self, path: &str) -> (out: AbsolutePath)
        ensures
            out@ == child_path(self@, path@),
            is_canonical(out@),
    {
        let stack = segments_of(self.text.as_str());
        let steps = chars_of(path);
        proof {
            lemma_canonical(self.text@);
            lemma_split_slash(steps@);
            lemma_walk_segments(rows(stack), split_slash(steps@), false);
        }
        let reached = walk_text(stack, &steps, false);
        AbsolutePath::from_segments(&reached)
    }

    /// The path of the element at `index` of the array at this path.
    pub fn append_index(&self, index: usize) -> (out: AbsolutePath)
        ensures
            out@ == child_path(self@, crate::text::decimal(index as nat)),
            is_canonical(out@),
    {
        let stack = segments_of(self.text.as_str());
        let mut steps: Vec<char> = Vec::new();
        push_decimal(&mut steps, index as u64);
        assert(steps@ =~= crate::text::decimal(index as nat));
        proof {
            lemma_canonical(self.text@);
            lemma_split_slash(steps@);
            lemma_walk_segments(rows(stack), split_slash(steps@), false);
        }
        let reached = walk_text(stack, &steps, false);
        AbsolutePath::from_segments(&reached)
    }

}

impl Clone for AbsolutePath {
    fn clone(&self) -> (out: AbsolutePath)
        ensures
            out@ == self@,
    {
        proof {
            use_type_invariant(self);
        }
        AbsolutePath { text: self.text.clone() }
    }
}

impl Default for AbsolutePath {
    /// The root.
    fn default() -> (out: AbsolutePath)
        ensures
            out@ == seq!['/'],
    {
        let segs: Vec<Vec<char>> = Vec::new();
        assert(rows(segs) =~= Seq::<Seq<char>>::empty());
        AbsolutePath::from_segments(&segs)
    }
}

impl RelativePath {
    /// The reference with the given text, kept as it is.
    pub fn new(path: &str) -> (out: RelativePath)
        ensures
            out@ == path@,
    {
        RelativePath { text: path.to_owned() }
    }

    /// The text of the reference.
    pub fn as_str(&self) -> (out: &str)
        ensures
            out@ == self@,
    {
        self.text.as_str()
    }
}

} // verus!
