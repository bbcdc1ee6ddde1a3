use crate::text::{
    chars_less, chars_of, copy_range, lemma_name_less_transitive, lemma_name_less_trichotomy,
    lemma_split_on_len, name_less, parse_usize, parse_usize_spec, same_chars, split_chars,
    split_on, trim, trim_chars, views, words, words_of, IntError,
};
use vstd::prelude::*;

verus! {

/// One corner of a face: 0-based indices of its vertex and, where the face
/// gives one, of its normal.
#[derive(Clone, Copy, Debug, PartialEq, Eq, Structural)]
pub struct FaceCorner {
    pub vertex: usize,
    pub normal: Option<usize>,
}

/// A triangle of a face, in the group that was current when the face was
/// read. The triangle is smooth when its first corner has a normal; the
/// other corners then have one too.
#[derive(Clone, Copy, Debug, PartialEq, Eq, Structural)]
pub struct Triangle {
    pub group: usize,
    pub a: FaceCorner,
    pub b: FaceCorner,
    pub c: FaceCorner,
}

/// Why an OBJ text is refused.
#[derive(Debug)]
pub enum ObjError {
    /// A `v` line did not have 4 space separated items; holds how many it had.
    VertexItems(usize),
    /// A `vn` line did not have 4 space separated items; holds how many it had.
    NormalItems(usize),
    /// An `f` line had fewer than 4 space separated items; holds how many it had.
    FaceItems(usize),
    /// A face item was not `num`, `num//num` or `num/num/num`; holds the item.
    FaceFormat(Vec<char>),
    /// A face index was not a `usize`.
    FaceIndex(IntError),
    /// The first corner of a face had a normal but a later corner had none.
    InconsistentNormals,
    /// A group name was used a second time; holds the name.
    GroupRepeated(Vec<char>),
    /// A face index was 0: OBJ indices start at 1, and subtracting 1 from 0
    /// overflows.
    IndexUnderflow,
}

/// The mathematical value of an [`ObjError`].
pub enum ObjErrorView {
    VertexItems(nat),
    NormalItems(nat),
    FaceItems(nat),
    FaceFormat(Seq<char>),
    FaceIndex(IntError),
    InconsistentNormals,
    GroupRepeated(Seq<char>),
    IndexUnderflow,
}

impl View for ObjError {
    type V = ObjErrorView;

    open spec fn view(&self) -> ObjErrorView {
        match self {
            ObjError::VertexItems(n) => ObjErrorView::VertexItems(*n as nat),
            ObjError::NormalItems(n) => ObjErrorView::NormalItems(*n as nat),
            ObjError::FaceItems(n) => ObjErrorView::FaceItems(*n as nat),
            ObjError::FaceFormat(s) => ObjErrorView::FaceFormat(s@),
            ObjError::FaceIndex(e) => ObjErrorView::FaceIndex(*e),
            ObjError::InconsistentNormals => ObjErrorView::InconsistentNormals,
            ObjError::GroupRepeated(s) => ObjErrorView::GroupRepeated(s@),
            ObjError::IndexUnderflow => ObjErrorView::IndexUnderflow,
        }
    }
}

/// The corner that a face item such as `3`, `3//1` or `3/2/1` describes.
pub open spec fn corner_spec(item: Seq<char>) -> Result<FaceCorner, ObjErrorView> {
    let values = split_on(item, '/');
    if values.len() != 1 && values.len() != 3 {
        Err(ObjErrorView::FaceFormat(item))
    } else {
        match parse_usize_spec(values[0]) {
            Err(e) => Err(ObjErrorView::FaceIndex(e)),
            Ok(v) => if v == 0 {
                Err(ObjErrorView::IndexUnderflow)
            } else if values.len() == 1 {
                Ok(FaceCorner { vertex: (v - 1) as usize, normal: None })
            } else {
                match parse_usize_spec(values[2]) {
                    Err(e) => Err(ObjErrorView::FaceIndex(e)),
                    Ok(n) => if n == 0 {
                        Err(ObjErrorView::IndexUnderflow)
                    } else {
                        Ok(FaceCorner { vertex: (v - 1) as usize, normal: Some((n - 1) as usize) })
                    },
                }
            },
        }
    }
}

/// The value of a parsed corner or of its error.
pub open spec fn corner_result_view(r: Result<FaceCorner, ObjError>) -> Result<FaceCorner, ObjErrorView> {
    match r {
        Ok(c) => Ok(c),
        Err(e) => Err(e@),
    }
}

/// Reads one face item.
pub fn parse_corner(item: &Vec<char>) -> (r: Result<FaceCorner, ObjError>)
    ensures
        corner_result_view(r) == corner_spec(item@),
{
    let values = split_chars(item, '/');
    proof {
        lemma_split_on_len(item@, '/');
    }
    if values.len() != 1 && values.len() != 3 {
        let copy = copy_range(item, 0, item.len());
        assert(copy@ == item@);
        return Err(ObjError::FaceFormat(copy));
    }
    assert(values@[0]@ == split_on(item@, '/')[0]);
    let v = match parse_usize(&values[0]) {
        Ok(v) => v,
        Err(e) => {
            return Err(ObjError::FaceIndex(e));
        },
    };
    if v == 0 {
        return Err(ObjError::IndexUnderflow);
    }
    if values.len() == 1 {
        return Ok(FaceCorner { vertex: v - 1, normal: None });
    }
    assert(values@[2]@ == split_on(item@, '/')[2]);
    let n = match parse_usize(&values[2]) {
        Ok(n) => n,
        Err(e) => {
            return Err(ObjError::FaceIndex(e));
        },
    };
    if n == 0 {
        return Err(ObjError::IndexUnderflow);
    }
    Ok(FaceCorner { vertex: v - 1, normal: Some(n - 1) })
}


/// What a line of an OBJ text contributes.
#[derive(Debug)]
pub enum ObjRecord {
    /// A vertex: the texts of its three coordinates.
    Vertex(Vec<char>, Vec<char>, Vec<char>),
    /// A vertex normal: the texts of its three coordinates.
    Normal(Vec<char>, Vec<char>, Vec<char>),
    /// One triangle of a face.
    Face(Triangle),
}

/// The mathematical value of an [`ObjRecord`].
pub enum ObjRecordView {
    Vertex(Seq<char>, Seq<char>, Seq<char>),
    Normal(Seq<char>, Seq<char>, Seq<char>),
    Face(Triangle),
}

impl View for ObjRecord {
    type V = ObjRecordView;

    open spec fn view(&self) -> ObjRecordView {
        match self {
            ObjRecord::Vertex(x, y, z) => ObjRecordView::Vertex(x@, y@, z@),
            ObjRecord::Normal(x, y, z) => ObjRecordView::Normal(x@, y@, z@),
            ObjRecord::Face(t) => ObjRecordView::Face(*t),
        }
    }
}

/// The values of a sequence of records.
pub open spec fn record_views(rs: Seq<ObjRecord>) -> Seq<ObjRecordView> {
    rs.map_values(|r: ObjRecord| r@)
}

/// The records of a sequence of triangles.
pub open spec fn face_records(ts: Seq<Triangle>) -> Seq<ObjRecordView> {
    ts.map_values(|t: Triangle| ObjRecordView::Face(t))
}

/// The triangles that fan out from `first` over the items from `idx` on, and
/// the error that stops the fan, if any: each step reads items `idx` and
/// `idx + 1` and makes the triangle `(first, items[idx], items[idx + 1])`.
pub open spec fn fan_spec(items: Seq<Seq<char>>, group: usize, first: FaceCorner, idx: int) -> (
    Seq<Triangle>,
    Option<ObjErrorView>,
)
    decreases items.len() - idx,
{
    if idx < 0 || idx >= items.len() - 1 {
        (Seq::empty(), None)
    } else {
        match corner_spec(items[idx]) {
            Err(e) => (Seq::empty(), Some(e)),
            Ok(b) => match corner_spec(items[idx + 1]) {
                Err(e) => (Seq::empty(), Some(e)),
                Ok(c) => if first.normal is Some && (b.normal is None || c.normal is None) {
                    (Seq::empty(), Some(ObjErrorView::InconsistentNormals))
                } else {
                    let rest = fan_spec(items, group, first, idx + 1);
                    (seq![Triangle { group, a: first, b, c }] + rest.0, rest.1)
                },
            },
        }
    }
}

/// The triangles of the face line `t` (already trimmed), read into `group`,
/// and the error that stops the face, if any.
pub open spec fn face_spec(t: Seq<char>, group: usize) -> (Seq<Triangle>, Option<ObjErrorView>) {
    let items = words(t);
    if items.len() < 4 {
        (Seq::empty(), Some(ObjErrorView::FaceItems(items.len())))
    } else {
        match corner_spec(items[1]) {
            Err(e) => (Seq::empty(), Some(e)),
            Ok(first) => fan_spec(items, group, first, 2),
        }
    }
}

/// The value of an optional error.
pub open spec fn error_view(e: Option<ObjError>) -> Option<ObjErrorView> {
    match e {
        Some(e) => Some(e@),
        None => None,
    }
}

/// Reads the face line `t` into `group`: appends its triangles to `records`
/// and returns the error that stopped it, if any. Triangles read before the
/// error stay appended.
pub fn parse_face(t: &Vec<char>, group: usize, records: &mut Vec<ObjRecord>) -> (r: Option<ObjError>)
    ensures
        record_views(final(records)@) == record_views(old(records)@) + face_records(face_spec(t@, group).0),
        error_view(r) == face_spec(t@, group).1,
{
    let items = words_of(t);
    let ghost iv = views(items@);
    assert(record_views(records@) == record_views(records@) + face_records(Seq::<Triangle>::empty()));
    if items.len() < 4 {
        return Some(ObjError::FaceItems(items.len()));
    }
    assert(items@[1]@ == iv[1]);
    let first = match parse_corner(&items[1]) {
        Ok(c) => c,
        Err(e) => {
            return Some(e);
        },
    };
    let ghost start = record_views(records@);
    let ghost mut acc: Seq<Triangle> = Seq::empty();
    let mut index: usize = 2;
    while index < items.len() - 1
        invariant
            iv == views(items@),
            iv == words(t@),
            items@.len() >= 4,
            2 <= index <= items@.len() - 1,
            corner_spec(iv[1]) == Ok::<FaceCorner, ObjErrorView>(first),
            record_views(records@) == start + face_records(acc),
            start == record_views(old(records)@),
            face_spec(t@, group) == fan_spec(iv, group, first, 2),
            fan_spec(iv, group, first, 2).0 == acc + fan_spec(iv, group, first, index as int).0,
            fan_spec(iv, group, first, 2).1 == fan_spec(iv, group, first, index as int).1,
        decreases items@.len() - index,
    {
        assert(items@[index as int]@ == iv[index as int]);
        assert(items@[index + 1]@ == iv[index + 1]);
        let b = match parse_corner(&items[index]) {
            Ok(c) => c,
            Err(e) => {
                assert(acc + Seq::<Triangle>::empty() == acc);
                return Some(e);
            },
        };
        let c = match parse_corner(&items[index + 1]) {
            Ok(c) => c,
            Err(e) => {
                assert(acc + Seq::<Triangle>::empty() == acc);
                return Some(e);
            },
        };
        if first.normal.is_some() && (b.normal.is_none() || c.normal.is_none()) {
            return Some(ObjError::InconsistentNormals);
        }
        let tri = Triangle { group, a: first, b, c };
        let ghost before = records@;
        records.push(ObjRecord::Face(tri));
        proof {
            assert(record_views(records@) == record_views(before).push(ObjRecordView::Face(tri)));
            assert(face_records(acc.push(tri)) == face_records(acc).push(ObjRecordView::Face(tri)));
            let rest = fan_spec(iv, group, first, index + 1);
            assert(fan_spec(iv, group, first, index as int).0 == seq![tri] + rest.0);
            assert(acc + (seq![tri] + rest.0) == acc.push(tri) + rest.0);
            acc = acc.push(tri);
        }
        index = index + 1;
    }
    proof {
        assert(fan_spec(iv, group, first, index as int).0 == Seq::<Triangle>::empty());
        assert(acc + Seq::<Triangle>::empty() == acc);
    }
    None
}


/// The state of an OBJ reader after some lines: the records so far, the
/// group names in the order they appeared (the first is `default`), the
/// current group, the number of ignored lines and the error, if any.
pub struct ObjState {
    pub records: Seq<ObjRecordView>,
    pub names: Seq<Seq<char>>,
    pub current: usize,
    pub ignored: nat,
    pub error: Option<ObjErrorView>,
}

/// The name of the group that faces go to before any `g` line.
pub open spec fn default_group_name() -> Seq<char> {
    seq!['d', 'e', 'f', 'a', 'u', 'l', 't']
}

/// The state before any line.
pub open spec fn initial_state() -> ObjState {
    ObjState {
        records: Seq::empty(),
        names: seq![default_group_name()],
        current: 0,
        ignored: 0,
        error: None,
    }
}

/// Whether `s` starts with `p`.
pub open spec fn begins_with(s: Seq<char>, p: Seq<char>) -> bool {
    p.len() <= s.len() && s.subrange(0, p.len() as int) == p
}

/// `st` with `e` as its error.
pub open spec fn with_error(st: ObjState, e: ObjErrorView) -> ObjState {
    ObjState { records: st.records, names: st.names, current: st.current, ignored: st.ignored, error: Some(e) }
}

/// `st` with `r` appended to its records.
pub open spec fn with_records(st: ObjState, r: Seq<ObjRecordView>) -> ObjState {
    ObjState { records: st.records + r, names: st.names, current: st.current, ignored: st.ignored, error: st.error }
}

/// The state after reading `line` in state `st`. Reading stops at the first
/// error: a state with an error does not change.
pub open spec fn parse_line_spec(st: ObjState, line: Seq<char>) -> ObjState {
    if st.error is Some {
        st
    } else {
        let t = trim(line);
        if begins_with(t, seq!['v', ' ']) {
            let w = words(t);
            if w.len() != 4 {
                with_error(st, ObjErrorView::VertexItems(w.len()))
            } else {
                with_records(st, seq![ObjRecordView::Vertex(w[1], w[2], w[3])])
            }
        } else if begins_with(t, seq!['v', 'n', ' ']) {
            let w = words(t);
            if w.len() != 4 {
                with_error(st, ObjErrorView::NormalItems(w.len()))
            } else {
                with_records(st, seq![ObjRecordView::Normal(w[1], w[2], w[3])])
            }
        } else if begins_with(t, seq!['f', ' ']) {
            let (tris, e) = face_spec(t, st.current);
            ObjState {
                records: st.records + face_records(tris),
                names: st.names,
                current: st.current,
                ignored: st.ignored,
                error: e,
            }
        } else if begins_with(t, seq!['g', ' ']) {
            let name = trim(t.subrange(1, t.len() as int));
            if st.names.contains(name) {
                with_error(st, ObjErrorView::GroupRepeated(name))
            } else {
                ObjState {
                    records: st.records,
                    names: st.names.push(name),
                    current: st.names.len() as usize,
                    ignored: st.ignored,
                    error: None,
                }
            }
        } else {
            ObjState {
                records: st.records,
                names: st.names,
                current: st.current,
                ignored: st.ignored + 1,
                error: None,
            }
        }
    }
}

/// The state after reading all of `lines`.
pub open spec fn parse_lines_spec(lines: Seq<Seq<char>>) -> ObjState
    decreases lines.len(),
{
    if lines.len() == 0 {
        initial_state()
    } else {
        parse_line_spec(parse_lines_spec(lines.drop_last()), lines.last())
    }
}

/// The texts of the lines.
pub open spec fn line_views(lines: Seq<String>) -> Seq<Seq<char>> {
    lines.map_values(|l: String| l@)
}

/// The reader's state while it goes through the lines.
struct Reader {
    records: Vec<ObjRecord>,
    names: Vec<Vec<char>>,
    current: usize,
    ignored: usize,
}

impl Reader {
    spec fn state(&self, error: Option<ObjError>) -> ObjState {
        ObjState {
            records: record_views(self.records@),
            names: views(self.names@),
            current: self.current,
            ignored: self.ignored as nat,
            error: error_view(error),
        }
    }

    /// Whether `name` is already a group name.
    fn has_name(&self, name: &Vec<char>) -> (r: bool)
        ensures
            r == views(self.names@).contains(name@),
    {
        let mut i: usize = 0;
        while i < self.names.len()
            invariant
                i <= self.names@.len(),
                forall|j: int| 0 <= j < i ==> views(self.names@)[j] != name@,
            decreases self.names@.len() - i,
        {
            if same_chars(&self.names[i], name) {
                assert(views(self.names@)[i as int] == name@);
                return true;
            }
            i = i + 1;
        }
        false
    }

    /// Reads one line; returns the error that stops reading, if any.
    fn read_line(&mut self, line: &Vec<char>) -> (r: Option<ObjError>)
        requires
            old(self).ignored < usize::MAX,
            views(old(self).names@).no_duplicates(),
            old(self).current < old(self).names@.len(),
        ensures
            final(self).state(r) == parse_line_spec(old(self).state(None), line@),
            final(self).ignored <= old(self).ignored + 1,
            views(final(self).names@).no_duplicates(),
            final(self).current < final(self).names@.len(),
    {
        let t = trim_chars(line);
        let len = t.len();
        let ghost st = self.state(None);
        if len >= 2 && t[0] == 'v' && t[1] == ' ' {
            proof {
                assert(t@.subrange(0, 2) =~= seq!['v', ' ']);
                assert(begins_with(t@, seq!['v', ' ']));
            }
            let w = words_of(&t);
            if w.len() != 4 {
                return Some(ObjError::VertexItems(w.len()));
            }
            let x = copy_range(&w[1], 0, w[1].len());
            let y = copy_range(&w[2], 0, w[2].len());
            let z = copy_range(&w[3], 0, w[3].len());
            proof {
                assert(x@ == words(t@)[1]);
                assert(y@ == words(t@)[2]);
                assert(z@ == words(t@)[3]);
            }
            let ghost before = self.records@;
            self.records.push(ObjRecord::Vertex(x, y, z));
            assert(record_views(self.records@) == record_views(before) + seq![ObjRecordView::Vertex(x@, y@, z@)]);
            return None;
        }
        if len >= 3 && t[0] == 'v' && t[1] == 'n' && t[2] == ' ' {
            proof {
                assert(!begins_with(t@, seq!['v', ' ']));
                assert(t@.subrange(0, 3) =~= seq!['v', 'n', ' ']);
                assert(begins_with(t@, seq!['v', 'n', ' ']));
            }
            let w = words_of(&t);
            if w.len() != 4 {
                return Some(ObjError::NormalItems(w.len()));
            }
            let x = copy_range(&w[1], 0, w[1].len());
            let y = copy_range(&w[2], 0, w[2].len());
            let z = copy_range(&w[3], 0, w[3].len());
            proof {
                assert(x@ == words(t@)[1]);
                assert(y@ == words(t@)[2]);
                assert(z@ == words(t@)[3]);
            }
            let ghost before = self.records@;
            self.records.push(ObjRecord::Normal(x, y, z));
            assert(record_views(self.records@) == record_views(before) + seq![ObjRecordView::Normal(x@, y@, z@)]);
            return None;
        }
        proof {
            if len >= 2 && t@[0] == 'v' {
                assert(!begins_with(t@, seq!['v', ' ']));
                assert(!begins_with(t@, seq!['v', 'n', ' ']));
            }
        }
        if len >= 2 && t[0] == 'f' && t[1] == ' ' {
            proof {
                assert(t@.subrange(0, 2) =~= seq!['f', ' ']);
                assert(begins_with(t@, seq!['f', ' ']));
                assert(!begins_with(t@, seq!['v', ' ']));
                assert(!begins_with(t@, seq!['v', 'n', ' ']));
            }
            return parse_face(&t, self.current, &mut self.records);
        }
        if len >= 2 && t[0] == 'g' && t[1] == ' ' {
            proof {
                assert(t@.subrange(0, 2) =~= seq!['g', ' ']);
                assert(begins_with(t@, seq!['g', ' ']));
                assert(!begins_with(t@, seq!['v', ' ']));
                assert(!begins_with(t@, seq!['v', 'n', ' ']));
                assert(!begins_with(t@, seq!['f', ' ']));
            }
            let rest = copy_range(&t, 1, len);
            let name = trim_chars(&rest);
            if self.has_name(&name) {
                return Some(ObjError::GroupRepeated(name));
            }
            let ghost before = views(self.names@);
            self.current = self.names.len();
            self.names.push(name);
            proof {
                assert(views(self.names@) == before.push(name@));
                assert forall|a: int, b: int|
                    0 <= a < views(self.names@).len() && 0 <= b < views(self.names@).len() && a
                        != b implies views(self.names@)[a] != views(self.names@)[b] by {
                    if a == before.len() as int {
                        assert(views(self.names@)[b] == before[b]);
                    } else if b == before.len() as int {
                        assert(views(self.names@)[a] == before[a]);
                    }
                }
            }
            return None;
        }
        proof {
            if len >= 2 && (t@[0] == 'f' || t@[0] == 'g') {
                assert(!begins_with(t@, seq!['f', ' ']) || t@[0] == 'g');
            }
            assert(!begins_with(t@, seq!['v', ' ']));
            assert(!begins_with(t@, seq!['v', 'n', ' ']));
            assert(!begins_with(t@, seq!['f', ' ']));
            assert(!begins_with(t@, seq!['g', ' ']));
        }
        self.ignored = self.ignored + 1;
        None
    }
}


/// Whether record `r` is a triangle of group `g`.
pub open spec fn is_face_in(r: ObjRecordView, g: int) -> bool {
    r matches ObjRecordView::Face(t) && t.group == g
}

/// Whether some triangle of `records` is in group `g`.
pub open spec fn group_used(records: Seq<ObjRecordView>, g: int) -> bool {
    exists|k: int| 0 <= k < records.len() && #[trigger] is_face_in(records[k], g)
}

/// `order` lists the groups that hold triangles, each once, sorted by name.
pub open spec fn is_group_order(order: Seq<usize>, names: Seq<Seq<char>>, records: Seq<ObjRecordView>) -> bool {
    &&& forall|i: int| 0 <= i < order.len() ==> #[trigger] order[i] < names.len()
    &&& forall|i: int, j: int|
        0 <= i < j < order.len() ==> name_less(names[order[i] as int], names[order[j] as int])
    &&& forall|g: int|
        0 <= g < names.len() ==> (group_used(records, g) <==> order.contains(g as usize))
}

/// The groups that hold triangles, sorted by name.
fn sorted_used_groups(records: &Vec<ObjRecord>, names: &Vec<Vec<char>>) -> (order: Vec<usize>)
    requires
        views(names@).no_duplicates(),
    ensures
        is_group_order(order@, views(names@), record_views(records@)),
{
    let ghost rv = record_views(records@);
    let ghost nv = views(names@);
    let mut used: Vec<bool> = Vec::new();
    let mut g: usize = 0;
    while g < names.len()
        invariant
            g <= names@.len(),
            used@.len() == g,
            forall|h: int| 0 <= h < g ==> !used@[h],
        decreases names@.len() - g,
    {
        used.push(false);
        g = g + 1;
    }
    let mut k: usize = 0;
    while k < records.len()
        invariant
            rv == record_views(records@),
            k <= records@.len(),
            used@.len() == names@.len(),
            forall|h: int|
                0 <= h < used@.len() ==> (#[trigger] used@[h] <==> exists|m: int|
                    0 <= m < k && #[trigger] is_face_in(rv[m], h)),
        decreases records@.len() - k,
    {
        let ghost old_used = used@;
        match &records[k] {
            ObjRecord::Face(t) => {
                if t.group < used.len() {
                    used.set(t.group, true);
                }
            },
            _ => {},
        }
        proof {
            assert forall|h: int| 0 <= h < used@.len() implies (#[trigger] used@[h] <==> exists|m: int|
                0 <= m < k + 1 && #[trigger] is_face_in(rv[m], h)) by {
                if used@[h] && !old_used[h] {
                    assert(is_face_in(rv[k as int], h));
                }
                if exists|m: int| 0 <= m < k + 1 && #[trigger] is_face_in(rv[m], h) {
                    let m = choose|m: int| 0 <= m < k + 1 && #[trigger] is_face_in(rv[m], h);
                    if m == k {
                        assert(used@[h]);
                    }
                }
            }
        }
        k = k + 1;
    }
    let mut order: Vec<usize> = Vec::new();
    let mut g: usize = 0;
    while g < names.len()
        invariant
            nv == views(names@),
            nv.no_duplicates(),
            rv == record_views(records@),
            g <= names@.len(),
            used@.len() == names@.len(),
            forall|h: int| 0 <= h < used@.len() ==> (#[trigger] used@[h] <==> group_used(rv, h)),
            forall|i: int| 0 <= i < order@.len() ==> #[trigger] order@[i] < g,
            forall|i: int, j: int|
                0 <= i < j < order@.len() ==> name_less(nv[order@[i] as int], nv[order@[j] as int]),
            forall|h: int| 0 <= h < names@.len() ==> (order@.contains(h as usize) <==> (h < g && group_used(rv, h))),
        decreases names@.len() - g,
    {
        if used[g] {
            let mut p: usize = 0;
            while p < order.len() && !chars_less(&names[g], &names[order[p]])
                invariant
                    nv == views(names@),
                    g < names@.len(),
                    p <= order@.len(),
                    forall|i: int| 0 <= i < order@.len() ==> #[trigger] order@[i] < g,
                    forall|i: int| 0 <= i < p ==> !name_less(nv[g as int], nv[order@[i] as int]),
                decreases order@.len() - p,
            {
                p = p + 1;
            }
            let ghost before = order@;
            order.insert(p, g);
            proof {
                assert(order@ == before.insert(p as int, g));
                assert forall|i: int, j: int|
                    0 <= i < j < order@.len() implies name_less(nv[order@[i] as int], nv[order@[j] as int]) by {
                    if j == p as int {
                        let o = before[i];
                        assert(order@[i] == o);
                        assert(o < g);
                        assert(nv[o as int] != nv[g as int]);
                        lemma_name_less_trichotomy(nv[g as int], nv[o as int]);
                    } else if i == p as int {
                        let o = before[j - 1];
                        assert(order@[j] == o);
                        assert(name_less(nv[g as int], nv[before[p as int] as int]));
                        if j - 1 > p {
                            lemma_name_less_transitive(nv[g as int], nv[before[p as int] as int], nv[o as int]);
                        }
                    } else if i < p && j > p {
                        assert(order@[i] == before[i]);
                        assert(order@[j] == before[j - 1]);
                    } else if j < p {
                        assert(order@[i] == before[i]);
                        assert(order@[j] == before[j]);
                    } else {
                        assert(order@[i] == before[i - 1]);
                        assert(order@[j] == before[j - 1]);
                    }
                }
                assert forall|h: int| 0 <= h < names@.len() implies (order@.contains(h as usize) <==> (h < g + 1 && group_used(rv, h))) by {
                    if order@.contains(h as usize) {
                        let m = choose|m: int| 0 <= m < order@.len() && order@[m] == h as usize;
                        if m < p {
                            assert(before[m] == h as usize);
                        } else if m > p {
                            assert(before[m - 1] == h as usize);
                        }
                    }
                    if h < g + 1 && group_used(rv, h) {
                        if h == g as int {
                            assert(order@[p as int] == g);
                        } else {
                            let m = choose|m: int| 0 <= m < before.len() && before[m] == h as usize;
                            if m < p {
                                assert(order@[m] == h as usize);
                            } else {
                                assert(order@[m + 1] == h as usize);
                            }
                        }
                    }
                }
            }
        }
        g = g + 1;
    }
    order
}

/// A read OBJ text: what each line contributed, the group names (the first
/// is `default`), the number of ignored lines, the error that stopped
/// reading, if any, and, when there is none, the groups that hold triangles,
/// sorted by name.
#[derive(Debug)]
pub struct ObjDocument {
    pub records: Vec<ObjRecord>,
    pub group_names: Vec<Vec<char>>,
    pub ignored: usize,
    pub error: Option<ObjError>,
    pub group_order: Vec<usize>,
}

/// Reads the lines of an OBJ text.
pub fn parse_obj(lines: &Vec<String>) -> (doc: ObjDocument)
    ensures
        ({
            let st = parse_lines_spec(line_views(lines@));
            &&& record_views(doc.records@) == st.records
            &&& views(doc.group_names@) == st.names
            &&& doc.ignored == st.ignored
            &&& error_view(doc.error) == st.error
            &&& st.error is None ==> is_group_order(doc.group_order@, st.names, st.records)
            &&& st.error is Some ==> doc.group_order@.len() == 0
        }),
{
    let ghost lv = line_views(lines@);
    let mut default_name: Vec<char> = Vec::new();
    default_name.push('d');
    default_name.push('e');
    default_name.push('f');
    default_name.push('a');
    default_name.push('u');
    default_name.push('l');
    default_name.push('t');
    assert(default_name@ =~= default_group_name());
    let mut names: Vec<Vec<char>> = Vec::new();
    names.push(default_name);
    let mut reader = Reader { records: Vec::new(), names, current: 0, ignored: 0 };
    proof {
        assert(views(reader.names@) =~= seq![default_group_name()]);
        assert(record_views(reader.records@) == Seq::<ObjRecordView>::empty());
        assert(lv.subrange(0, 0) == Seq::<Seq<char>>::empty());
    }
    let mut error: Option<ObjError> = None;
    let mut i: usize = 0;
    assert(lv.subrange(0, lines@.len() as int) == lv);
    while i < lines.len()
        invariant_except_break
            error is None,
            reader.state(error) == parse_lines_spec(lv.subrange(0, i as int)),
        invariant
            lv == line_views(lines@),
            lv.subrange(0, lines@.len() as int) == lv,
            i <= lines@.len(),
            reader.ignored <= i,
            views(reader.names@).no_duplicates(),
            reader.current < reader.names@.len(),
        ensures
            reader.state(error) == parse_lines_spec(lv),
            error is None ==> i == lines@.len(),
        decreases lines@.len() - i,
    {
        let line = chars_of(lines[i].as_str());
        let r = reader.read_line(&line);
        proof {
            let next = lv.subrange(0, i + 1);
            assert(next.drop_last() == lv.subrange(0, i as int));
            assert(next.last() == line@);
        }
        if r.is_some() {
            error = r;
            proof {
                lemma_error_stays(lv, (i + 1) as nat);
            }
            break;
        }
        i = i + 1;
    }
    let group_order = if error.is_none() {
        sorted_used_groups(&reader.records, &reader.names)
    } else {
        Vec::new()
    };
    ObjDocument {
        records: reader.records,
        group_names: reader.names,
        ignored: reader.ignored,
        error,
        group_order,
    }
}

/// Reading stops at the first error: once a prefix of the lines ends in an
/// error, the lines after it change nothing.
pub proof fn lemma_error_stays(lines: Seq<Seq<char>>, n: nat)
    requires
        n <= lines.len(),
        parse_lines_spec(lines.subrange(0, n as int)).error is Some,
    ensures
        parse_lines_spec(lines) == parse_lines_spec(lines.subrange(0, n as int)),
    decreases lines.len() - n,
{
    if n < lines.len() {
        let next = lines.subrange(0, n as int + 1);
        assert(next.drop_last() == lines.subrange(0, n as int));
        lemma_error_stays(lines, n + 1);
    } else {
        assert(lines.subrange(0, n as int) == lines);
    }
}


/// A face is cut into a fan of triangles around its first corner: without
/// an error, the items from `idx` on give one triangle per consecutive pair,
/// each in group `group` and starting at `first`.
pub proof fn lemma_fan_shape(items: Seq<Seq<char>>, group: usize, first: FaceCorner, idx: int)
    ensures
        forall|k: int|
            0 <= k < fan_spec(items, group, first, idx).0.len() ==> {
                let t = #[trigger] fan_spec(items, group, first, idx).0[k];
                &&& t.group == group
                &&& t.a == first
                &&& corner_spec(items[idx + k]) == Ok::<FaceCorner, ObjErrorView>(t.b)
                &&& corner_spec(items[idx + k + 1]) == Ok::<FaceCorner, ObjErrorView>(t.c)
            },
        0 <= idx <= items.len() - 1 && fan_spec(items, group, first, idx).1 is None
            ==> fan_spec(items, group, first, idx).0.len() == items.len() - 1 - idx,
    decreases items.len() - idx,
{
    if !(idx < 0 || idx >= items.len() - 1) {
        lemma_fan_shape(items, group, first, idx + 1);
        let f = fan_spec(items, group, first, idx);
        let rest = fan_spec(items, group, first, idx + 1);
        if let (Ok(b), Ok(c)) = (corner_spec(items[idx]), corner_spec(items[idx + 1])) {
            if !(first.normal is Some && (b.normal is None || c.normal is None)) {
                assert forall|k: int| 0 <= k < f.0.len() implies {
                    let t = #[trigger] f.0[k];
                    &&& t.group == group
                    &&& t.a == first
                    &&& corner_spec(items[idx + k]) == Ok::<FaceCorner, ObjErrorView>(t.b)
                    &&& corner_spec(items[idx + k + 1]) == Ok::<FaceCorner, ObjErrorView>(t.c)
                } by {
                    if k > 0 {
                        assert(f.0[k] == rest.0[k - 1]);
                        assert(idx + 1 + (k - 1) == idx + k);
                    }
                }
            }
        }
    }
}

/// A face line with `n` corners and no error becomes `n - 2` triangles, all
/// in the group it was read into.
pub proof fn lemma_face_triangle_count(t: Seq<char>, group: usize)
    requires
        face_spec(t, group).1 is None,
    ensures
        words(t).len() >= 4,
        face_spec(t, group).0.len() == words(t).len() - 3,
        forall|k: int|
            0 <= k < face_spec(t, group).0.len() ==> (#[trigger] face_spec(t, group).0[k]).group
                == group,
{
    let items = words(t);
    if let Ok(first) = corner_spec(items[1]) {
        lemma_fan_shape(items, group, first, 2);
    }
}

/// What holds of every state an OBJ text can lead to: the first group is
/// `default`, group names are distinct, the current group exists and every
/// triangle is in an existing group.
pub open spec fn state_is_valid(st: ObjState) -> bool {
    &&& st.names.len() >= 1
    &&& st.names[0] == default_group_name()
    &&& st.names.no_duplicates()
    &&& st.current < st.names.len()
    &&& forall|k: int|
        0 <= k < st.records.len() ==> (#[trigger] st.records[k] matches ObjRecordView::Face(t)
            ==> t.group < st.names.len())
}

/// Reading any lines keeps the state valid.
pub proof fn lemma_state_valid(lines: Seq<Seq<char>>)
    ensures
        state_is_valid(parse_lines_spec(lines)),
    decreases lines.len(),
{
    if lines.len() == 0 {
        let st = initial_state();
        assert(st.names.no_duplicates());
    } else {
        lemma_state_valid(lines.drop_last());
        let st = parse_lines_spec(lines.drop_last());
        let next = parse_lines_spec(lines);
        if st.error is None {
            let t = trim(lines.last());
            if begins_with(t, seq!['v', ' ']) || begins_with(t, seq!['v', 'n', ' ']) {
                assert forall|k: int| 0 <= k < next.records.len() implies (#[trigger] next.records[k] matches ObjRecordView::Face(tr)
                    ==> tr.group < next.names.len()) by {
                    if k < st.records.len() {
                        assert(next.records[k] == st.records[k]);
                    }
                }
            } else if begins_with(t, seq!['f', ' ']) {
                let (tris, e) = face_spec(t, st.current);
                let items = words(t);
                if items.len() >= 4 {
                    if let Ok(first) = corner_spec(items[1]) {
                        lemma_fan_shape(items, st.current, first, 2);
                    }
                }
                assert forall|k: int| 0 <= k < next.records.len() implies (#[trigger] next.records[k] matches ObjRecordView::Face(tr)
                    ==> tr.group < next.names.len()) by {
                    if k < st.records.len() {
                        assert(next.records[k] == st.records[k]);
                    } else {
                        assert(next.records[k] == ObjRecordView::Face(tris[k - st.records.len()]));
                    }
                }
            } else if begins_with(t, seq!['g', ' ']) {
                let name = trim(t.subrange(1, t.len() as int));
                if !st.names.contains(name) {
                    let names = st.names.push(name);
                    assert(names[0] == st.names[0]);
                    assert forall|a: int, b: int| 0 <= a < names.len() && 0 <= b < names.len() && a != b implies names[a] != names[b] by {
                        if a == st.names.len() as int {
                            assert(names[b] == st.names[b]);
                        } else if b == st.names.len() as int {
                            assert(names[a] == st.names[a]);
                        }
                    }
                }
            }
        }
    }
}

} // verus!
