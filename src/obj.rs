//! Reading of the polygon-mesh text format: `v` lines declare vertices, `f`
//! lines make triangles out of them, `o` lines open a named group.
use vstd::prelude::*;

verus! {

/// Whether `c` is white space in the sense of Unicode (the characters that
/// `char::is_whitespace` accepts).
pub open spec fn is_space(c: char) -> bool {
    let u = c as u32;
    (0x09 <= u && u <= 0x0d) || u == 0x20 || u == 0x85 || u == 0xa0 || u == 0x1680 || (0x2000
        <= u && u <= 0x200a) || u == 0x2028 || u == 0x2029 || u == 0x202f || u == 0x205f || u
        == 0x3000
}

/// The words of `s` read so far, and the word in progress (empty between words).
pub open spec fn scan_words(s: Seq<char>) -> (Seq<Seq<char>>, Seq<char>)
    decreases s.len(),
{
    if s.len() == 0 {
        (seq![], seq![])
    } else {
        let (done, cur) = scan_words(s.drop_last());
        let c = s.last();
        if !is_space(c) {
            (done, cur.push(c))
        } else if cur.len() > 0 {
            (done.push(cur), seq![])
        } else {
            (done, cur)
        }
    }
}

/// The maximal runs of non-space characters of `s`, in order.
pub open spec fn words(s: Seq<char>) -> Seq<Seq<char>> {
    let (done, cur) = scan_words(s);
    if cur.len() > 0 {
        done.push(cur)
    } else {
        done
    }
}

fn char_is_space(c: char) -> (r: bool)
    ensures
        r == is_space(c),
{
    let u = c as u32;
    (0x09 <= u && u <= 0x0d) || u == 0x20 || u == 0x85 || u == 0xa0 || u == 0x1680 || (0x2000
        <= u && u <= 0x200a) || u == 0x2028 || u == 0x2029 || u == 0x202f || u == 0x205f || u
        == 0x3000
}

/// The characters of `s`, in order.
fn str_chars(s: &str) -> (r: Vec<char>)
    ensures
        r@ == s@,
{
    let mut v: Vec<char> = Vec::new();
    for c in it: s.chars()
        invariant
            v@ == it.seq().take(it.index() as int),
    {
        v.push(c);
    }
    v
}

/// The bounds of the words of `chars`, as `(start, end)` positions.
fn word_spans(chars: &Vec<char>) -> (r: Vec<(usize, usize)>)
    ensures
        r.len() == words(chars@).len(),
        forall|k: int|
            0 <= k < r.len() ==> {
                &&& r[k].0 <= r[k].1 <= chars.len()
                &&& chars@.subrange(r[k].0 as int, r[k].1 as int) == words(chars@)[k]
            },
{
    let mut spans: Vec<(usize, usize)> = Vec::new();
    let mut start: usize = 0;
    let mut i: usize = 0;
    while i < chars.len()
        invariant
            i <= chars.len(),
            start <= i,
            spans.len() == scan_words(chars@.take(i as int)).0.len(),
            forall|k: int| 0 <= k < spans.len() ==> spans[k].0 <= spans[k].1 && spans[k].1 <= i,
            forall|k: int|
                0 <= k < spans.len() ==> chars@.subrange(spans[k].0 as int, spans[k].1 as int)
                    == scan_words(chars@.take(i as int)).0[k],
            scan_words(chars@.take(i as int)).1 == chars@.subrange(start as int, i as int),
        decreases chars.len() - i,
    {
        let ghost before = chars@.take(i as int);
        assert(chars@.take(i + 1).drop_last() =~= before);
        let c = chars[i];
        let ghost done = scan_words(before).0;
        if !char_is_space(c) {
            assert(chars@.subrange(start as int, i + 1) =~= chars@.subrange(
                start as int,
                i as int,
            ).push(c));
            assert(scan_words(chars@.take(i + 1)).0 == done);
        } else {
            if start == i {
                assert(scan_words(chars@.take(i + 1)).0 == done);
            } else {
                spans.push((start, i));
                assert(scan_words(chars@.take(i + 1)).0 == done.push(
                    chars@.subrange(start as int, i as int),
                ));
            }
            start = i + 1;
            assert(chars@.subrange(start as int, i + 1) =~= Seq::<char>::empty());
        }
        i = i + 1;
    }
    assert(chars@.take(i as int) =~= chars@);
    if start < i {
        spans.push((start, i));
    }
    assert forall|k: int| 0 <= k < spans.len() implies chars@.subrange(
        spans[k].0 as int,
        spans[k].1 as int,
    ) == words(chars@)[k] by {
        assert(0 <= k < words(chars@).len());
    }
    spans
}

/// The part of `s` before its first `/` (all of `s` when it has none).
pub open spec fn before_slash(s: Seq<char>) -> Seq<char>
    decreases s.len(),
{
    if s.len() == 0 || s[0] == '/' {
        seq![]
    } else {
        seq![s[0]] + before_slash(s.drop_first())
    }
}

/// An ASCII decimal digit.
pub open spec fn is_digit(c: char) -> bool {
    '0' <= c && c <= '9'
}

/// The number that the decimal digits `s` write.
pub open spec fn digits_value(s: Seq<char>) -> nat
    decreases s.len(),
{
    if s.len() == 0 {
        0
    } else {
        digits_value(s.drop_last()) * 10 + (s.last() as nat - '0' as nat) as nat
    }
}

/// `s` without its leading `+`, if it has one.
pub open spec fn unsigned_part(s: Seq<char>) -> Seq<char> {
    if s.len() > 0 && s[0] == '+' {
        s.drop_first()
    } else {
        s
    }
}

/// Whether `s` holds decimal digits only.
pub open spec fn all_digits(s: Seq<char>) -> bool {
    forall|i: int| 0 <= i < s.len() ==> is_digit(#[trigger] s[i])
}

/// The unsigned integer that `s` writes in decimal, with an optional leading
/// `+`, if it fits in a `usize`.
pub open spec fn parse_usize(s: Seq<char>) -> Option<usize> {
    let d = unsigned_part(s);
    if d.len() > 0 && all_digits(d) && digits_value(d) <= usize::MAX {
        Some(digits_value(d) as usize)
    } else {
        None
    }
}

proof fn lemma_digits_value_grows(s: Seq<char>, k: int)
    requires
        0 <= k <= s.len(),
        forall|i: int| 0 <= i < s.len() ==> is_digit(#[trigger] s[i]),
    ensures
        digits_value(s.take(k)) <= digits_value(s),
    decreases s.len(),
{
    if k < s.len() {
        let t = s.drop_last();
        assert(t.take(k) =~= s.take(k));
        lemma_digits_value_grows(t, k);
    } else {
        assert(s.take(k) =~= s);
    }
}

proof fn lemma_before_slash(s: Seq<char>, k: int)
    requires
        0 <= k <= s.len(),
        forall|i: int| 0 <= i < k ==> s[i] != '/',
        k == s.len() || s[k] == '/',
    ensures
        before_slash(s) == s.take(k),
    decreases k,
{
    if k == 0 {
        assert(s.take(0) =~= Seq::<char>::empty());
    } else {
        let t = s.drop_first();
        lemma_before_slash(t, k - 1);
        assert(s.take(k) =~= seq![s[0]] + t.take(k - 1));
    }
}

/// Reads `chars[start..end]` as `str::parse::<usize>` does.
fn parse_decimal(chars: &Vec<char>, start: usize, end: usize) -> (r: Option<usize>)
    requires
        start <= end <= chars.len(),
    ensures
        r == parse_usize(chars@.subrange(start as int, end as int)),
{
    let ghost s = chars@.subrange(start as int, end as int);
    let mut first = start;
    if first < end && chars[first] == '+' {
        first = first + 1;
    }
    let ghost d = chars@.subrange(first as int, end as int);
    assert(d =~= unsigned_part(s));
    if first == end {
        return None;
    }
    let mut acc: usize = 0;
    let mut i = first;
    while i < end
        invariant
            first <= i <= end <= chars.len(),
            d == chars@.subrange(first as int, end as int),
            s == chars@.subrange(start as int, end as int),
            d == unsigned_part(s),
            start <= first,
            d.len() > 0,
            forall|j: int| 0 <= j < i - first ==> is_digit(#[trigger] d[j]),
            acc == digits_value(d.take(i - first)),
        decreases end - i,
    {
        let c = chars[i];
        if !('0' <= c && c <= '9') {
            assert(!is_digit(d[i - first]));
            return None;
        }
        let ghost k = i - first;
        assert(d.take(k + 1).drop_last() =~= d.take(k));
        let digit = (c as u32 - '0' as u32) as usize;
        let grown = match acc.checked_mul(10) {
            Some(t) => t.checked_add(digit),
            None => None,
        };
        match grown {
            Some(v) => {
                acc = v;
            },
            None => {
                proof {
                    if all_digits(d) {
                        lemma_digits_value_grows(d, k + 1);
                    }
                }
                return None;
            },
        }
        i = i + 1;
    }
    assert(d.take(i - first) =~= d);
    Some(acc)
}

/// A triangle of the mesh, as three positions in the vertex list, counted from zero.
#[derive(Clone, Copy, Debug, PartialEq, Eq, Structural)]
pub struct Face {
    pub a: usize,
    pub b: usize,
    pub c: usize,
}

/// The three coordinates of a vertex, as the text writes them.
#[derive(Debug, PartialEq, Eq)]
pub struct VertexText {
    pub x: String,
    pub y: String,
    pub z: String,
}

/// A named group of triangles.
#[derive(Debug, PartialEq, Eq)]
pub struct ObjGroup {
    pub name: String,
    pub faces: Vec<Face>,
}

/// What a mesh text declares: every vertex in order, and the groups with their faces.
#[derive(Debug, PartialEq, Eq)]
pub struct ObjModel {
    pub vertices: Vec<VertexText>,
    pub groups: Vec<ObjGroup>,
}

/// Why a mesh text is refused; `line` counts from one.
#[derive(Clone, Copy, Debug, PartialEq, Eq, Structural)]
pub enum ObjError {
    /// An `o` line without a name.
    MissingName { line: usize },
    /// A `v` line with fewer than three coordinates.
    MissingCoordinate { line: usize },
    /// An `f` line with fewer than three vertex references.
    MissingVertexRef { line: usize },
    /// A vertex reference whose index is not a positive integer.
    BadIndex { line: usize },
    /// A vertex reference to a vertex that no earlier line declares.
    UnknownVertex { line: usize },
    /// An `f` line before the first `o` line.
    FaceOutsideObject { line: usize },
    /// A text without any `o` line.
    NoObject,
}

/// A group as sequences: its name and its faces.
pub struct GroupView {
    pub name: Seq<char>,
    pub faces: Seq<Face>,
}

/// A model as sequences: each vertex as its three coordinate words, and the groups.
pub struct ModelView {
    pub vertices: Seq<(Seq<char>, Seq<char>, Seq<char>)>,
    pub groups: Seq<GroupView>,
}

impl View for VertexText {
    type V = (Seq<char>, Seq<char>, Seq<char>);

    open spec fn view(&self) -> Self::V {
        (self.x@, self.y@, self.z@)
    }
}

impl View for ObjGroup {
    type V = GroupView;

    open spec fn view(&self) -> GroupView {
        GroupView { name: self.name@, faces: self.faces@ }
    }
}

impl View for ObjModel {
    type V = ModelView;

    open spec fn view(&self) -> ModelView {
        ModelView {
            vertices: self.vertices@.map_values(|v: VertexText| v@),
            groups: self.groups@.map_values(|g: ObjGroup| g@),
        }
    }
}

/// What a face's reference to a vertex designates, when `count` vertices are
/// declared: the field before the first `/` is the position, counted from one.
pub open spec fn vertex_ref(word: Seq<char>, count: nat, line: usize) -> Result<usize, ObjError> {
    match parse_usize(before_slash(word)) {
        Some(n) => if n == 0 {
            Err(ObjError::BadIndex { line })
        } else if n - 1 < count {
            Ok((n - 1) as usize)
        } else {
            Err(ObjError::UnknownVertex { line })
        },
        None => Err(ObjError::BadIndex { line }),
    }
}

/// `m` with `f` added to its last group.
pub open spec fn add_face(m: ModelView, f: Face) -> ModelView {
    let last = m.groups.len() - 1;
    ModelView {
        vertices: m.vertices,
        groups: m.groups.update(
            last,
            GroupView { name: m.groups[last].name, faces: m.groups[last].faces.push(f) },
        ),
    }
}

/// The effect of an `f` line with words `w`: its three references are read in
/// order, then the triangle joins the current group.
pub open spec fn face_line(m: ModelView, w: Seq<Seq<char>>, line: usize) -> Result<
    ModelView,
    ObjError,
> {
    let count = m.vertices.len();
    if w.len() < 2 {
        Err(ObjError::MissingVertexRef { line })
    } else {
        match vertex_ref(w[1], count, line) {
            Err(e) => Err(e),
            Ok(a) => if w.len() < 3 {
                Err(ObjError::MissingVertexRef { line })
            } else {
                match vertex_ref(w[2], count, line) {
                    Err(e) => Err(e),
                    Ok(b) => if w.len() < 4 {
                        Err(ObjError::MissingVertexRef { line })
                    } else {
                        match vertex_ref(w[3], count, line) {
                            Err(e) => Err(e),
                            Ok(c) => if m.groups.len() == 0 {
                                Err(ObjError::FaceOutsideObject { line })
                            } else {
                                Ok(add_face(m, Face { a, b, c }))
                            },
                        }
                    },
                }
            },
        }
    }
}

/// The effect of one line with words `w`, numbered `line`, on the model read so far.
/// Lines that start with another word, and blank lines, change nothing.
pub open spec fn apply_line(m: ModelView, w: Seq<Seq<char>>, line: usize) -> Result<
    ModelView,
    ObjError,
> {
    if w.len() == 0 {
        Ok(m)
    } else if w[0] == seq!['o'] {
        if w.len() < 2 {
            Err(ObjError::MissingName { line })
        } else {
            Ok(
                ModelView {
                    vertices: m.vertices,
                    groups: m.groups.push(GroupView { name: w[1], faces: seq![] }),
                },
            )
        }
    } else if w[0] == seq!['v'] {
        if w.len() < 4 {
            Err(ObjError::MissingCoordinate { line })
        } else {
            Ok(ModelView { vertices: m.vertices.push((w[1], w[2], w[3])), groups: m.groups })
        }
    } else if w[0] == seq!['f'] {
        face_line(m, w, line)
    } else {
        Ok(m)
    }
}

/// The model before any line is read.
pub open spec fn empty_model() -> ModelView {
    ModelView { vertices: seq![], groups: seq![] }
}

/// The model that `lines` declare, read one line after the other; the first
/// line that is refused decides the error.
pub open spec fn load_lines(lines: Seq<Seq<char>>) -> Result<ModelView, ObjError>
    decreases lines.len(),
{
    if lines.len() == 0 {
        Ok(empty_model())
    } else {
        match load_lines(lines.drop_last()) {
            Ok(m) => apply_line(m, words(lines.last()), lines.len() as usize),
            Err(e) => Err(e),
        }
    }
}

/// The model of a whole text: it must open at least one group.
pub open spec fn parsed_model(lines: Seq<Seq<char>>) -> Result<ModelView, ObjError> {
    match load_lines(lines) {
        Ok(m) => if m.groups.len() == 0 {
            Err(ObjError::NoObject)
        } else {
            Ok(m)
        },
        Err(e) => Err(e),
    }
}

proof fn lemma_error_sticks(lines: Seq<Seq<char>>, k: int, e: ObjError)
    requires
        0 <= k <= lines.len(),
        load_lines(lines.take(k)) == Err::<ModelView, ObjError>(e),
    ensures
        load_lines(lines) == Err::<ModelView, ObjError>(e),
    decreases lines.len() - k,
{
    if k < lines.len() {
        assert(lines.take(k + 1).drop_last() =~= lines.take(k));
        lemma_error_sticks(lines, k + 1, e);
    } else {
        assert(lines.take(k) =~= lines);
    }
}

/// Whether the word at `span` is the single character `c`.
fn word_is(chars: &Vec<char>, span: (usize, usize), c: char) -> (r: bool)
    requires
        span.0 <= span.1 <= chars.len(),
    ensures
        r == (chars@.subrange(span.0 as int, span.1 as int) == seq![c]),
{
    let r = span.1 - span.0 == 1 && chars[span.0] == c;
    let ghost w = chars@.subrange(span.0 as int, span.1 as int);
    proof {
        if r {
            assert(w =~= seq![c]);
        } else if w.len() == 1 {
            assert(w[0] != seq![c][0]);
        } else {
            assert(w.len() != seq![c].len());
        }
    }
    r
}

/// Reads the vertex reference at `span`, with `count` vertices declared.
fn read_vertex_ref(chars: &Vec<char>, span: (usize, usize), count: usize, line: usize) -> (r:
    Result<usize, ObjError>)
    requires
        span.0 <= span.1 <= chars.len(),
    ensures
        r == vertex_ref(chars@.subrange(span.0 as int, span.1 as int), count as nat, line),
{
    let (start, end) = span;
    let mut k = start;
    while k < end && chars[k] != '/'
        invariant
            start <= k <= end <= chars.len(),
            forall|i: int| start <= i < k ==> chars[i] != '/',
        decreases end - k,
    {
        k = k + 1;
    }
    proof {
        let w = chars@.subrange(start as int, end as int);
        lemma_before_slash(w, k - start);
        assert(w.take(k - start) =~= chars@.subrange(start as int, k as int));
    }
    match parse_decimal(chars, start, k) {
        Some(n) => if n == 0 {
            Err(ObjError::BadIndex { line })
        } else if n - 1 < count {
            Ok(n - 1)
        } else {
            Err(ObjError::UnknownVertex { line })
        },
        None => Err(ObjError::BadIndex { line }),
    }
}

/// The word at `span`, as a string.
fn word_text(line: &str, span: (usize, usize)) -> (r: String)
    requires
        span.0 <= span.1 <= line@.len(),
    ensures
        r@ == line@.subrange(span.0 as int, span.1 as int),
{
    line.substring_char(span.0, span.1).to_owned()
}

/// Applies the line `line`, numbered `number`, to `model`.
fn read_line(model: &mut ObjModel, line: &str, number: usize) -> (r: Result<(), ObjError>)
    ensures
        match apply_line(old(model)@, words(line@), number) {
            Ok(m) => r is Ok && final(model)@ == m,
            Err(e) => r == Err::<(), ObjError>(e),
        },
{
    let chars = str_chars(line);
    let spans = word_spans(&chars);
    let ghost w = words(line@);
    let n = spans.len();
    if n == 0 {
        return Ok(());
    }
    if word_is(&chars, spans[0], 'o') {
        if n < 2 {
            return Err(ObjError::MissingName { line: number });
        }
        let name = word_text(line, spans[1]);
        let ghost before = model.groups@;
        model.groups.push(ObjGroup { name, faces: Vec::new() });
        assert(model.groups@.map_values(|g: ObjGroup| g@) =~= before.map_values(
            |g: ObjGroup| g@,
        ).push(GroupView { name: w[1], faces: seq![] }));
        Ok(())
    } else if word_is(&chars, spans[0], 'v') {
        if n < 4 {
            return Err(ObjError::MissingCoordinate { line: number });
        }
        let x = word_text(line, spans[1]);
        let y = word_text(line, spans[2]);
        let z = word_text(line, spans[3]);
        let ghost before = model.vertices@;
        model.vertices.push(VertexText { x, y, z });
        assert(model.vertices@.map_values(|v: VertexText| v@) =~= before.map_values(
            |v: VertexText| v@,
        ).push((w[1], w[2], w[3])));
        Ok(())
    } else if word_is(&chars, spans[0], 'f') {
        let count = model.vertices.len();
        if n < 2 {
            return Err(ObjError::MissingVertexRef { line: number });
        }
        let a = match read_vertex_ref(&chars, spans[1], count, number) {
            Ok(a) => a,
            Err(e) => return Err(e),
        };
        if n < 3 {
            return Err(ObjError::MissingVertexRef { line: number });
        }
        let b = match read_vertex_ref(&chars, spans[2], count, number) {
            Ok(b) => b,
            Err(e) => return Err(e),
        };
        if n < 4 {
            return Err(ObjError::MissingVertexRef { line: number });
        }
        let c = match read_vertex_ref(&chars, spans[3], count, number) {
            Ok(c) => c,
            Err(e) => return Err(e),
        };
        if model.groups.len() == 0 {
            return Err(ObjError::FaceOutsideObject { line: number });
        }
        let ghost before = model.groups@;
        let mut group = model.groups.pop().unwrap();
        group.faces.push(Face { a, b, c });
        model.groups.push(group);
        assert(model.groups@.map_values(|g: ObjGroup| g@) =~= add_face(
            old(model)@,
            Face { a, b, c },
        ).groups);
        Ok(())
    } else {
        Ok(())
    }
}

/// Reads a mesh text given as its lines: the vertices in the order of their
/// `v` lines, the groups in the order of their `o` lines, each face in the
/// group opened last before it.
pub fn parse_obj(lines: &Vec<String>) -> (r: Result<ObjModel, ObjError>)
    ensures
        match parsed_model(lines@.map_values(|s: String| s@)) {
            Ok(m) => r is Ok && r->Ok_0@ == m,
            Err(e) => r == Err::<ObjModel, ObjError>(e),
        },
{
    let ghost ls = lines@.map_values(|s: String| s@);
    let mut model = ObjModel { vertices: Vec::new(), groups: Vec::new() };
    assert(model@.vertices =~= empty_model().vertices);
    assert(model@.groups =~= empty_model().groups);
    assert(ls.take(0) =~= Seq::<Seq<char>>::empty());
    let mut i: usize = 0;
    while i < lines.len()
        invariant
            i <= lines.len(),
            ls == lines@.map_values(|s: String| s@),
            load_lines(ls.take(i as int)) == Ok::<ModelView, ObjError>(model@),
        decreases lines.len() - i,
    {
        assert(ls.take(i + 1).drop_last() =~= ls.take(i as int));
        match read_line(&mut model, lines[i].as_str(), i + 1) {
            Ok(()) => {},
            Err(e) => {
                proof {
                    lemma_error_sticks(ls, i + 1, e);
                }
                return Err(e);
            },
        }
        i = i + 1;
    }
    assert(ls.take(i as int) =~= ls);
    if model.groups.len() == 0 {
        return Err(ObjError::NoObject);
    }
    Ok(model)
}

} // verus!
