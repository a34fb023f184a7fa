use vstd::prelude::*;

verus! {

/// One line of a Wavefront OBJ file that the renderer consumes.
#[derive(Clone, Debug, PartialEq, Eq)]
pub enum ObjEntry {
    /// `v x y z`: the first three coordinate fields, as written.
    Vertex { x: String, y: String, z: String },
    /// `f i j k ...`: the 1-based vertex references whose leading field
    /// reads as an index, in order.
    Face { refs: Vec<usize> },
}

/// What an [`ObjEntry`] holds, as mathematical values.
pub enum EntryView {
    Vertex(Seq<char>, Seq<char>, Seq<char>),
    Face(Seq<usize>),
}

impl View for ObjEntry {
    type V = EntryView;

    open spec fn view(&self) -> EntryView {
        match self {
            ObjEntry::Vertex { x, y, z } => EntryView::Vertex(x@, y@, z@),
            ObjEntry::Face { refs } => EntryView::Face(refs@),
        }
    }
}

/// The whitespace that separates fields: the characters with the Unicode
/// `White_Space` property.
pub open spec fn is_space(c: char) -> bool {
    ||| c == '\t' || c == '\n' || c == '\u{0B}' || c == '\u{0C}' || c == '\r'
    ||| c == ' ' || c == '\u{85}' || c == '\u{A0}' || c == '\u{1680}'
    ||| 0x2000 <= c as u32 <= 0x200A
    ||| c == '\u{2028}' || c == '\u{2029}' || c == '\u{202F}' || c == '\u{205F}'
    ||| c == '\u{3000}'
}

/// Reads `s` left to right, splitting it at whitespace: the fields already
/// closed, and the field being read (empty between fields).
pub open spec fn field_scan(s: Seq<char>) -> (Seq<Seq<char>>, Seq<char>)
    decreases s.len(),
{
    if s.len() == 0 {
        (seq![], seq![])
    } else {
        let (closed, open) = field_scan(s.drop_last());
        let c = s.last();
        if !is_space(c) {
            (closed, open.push(c))
        } else if open.len() == 0 {
            (closed, open)
        } else {
            (closed.push(open), seq![])
        }
    }
}

/// The maximal runs of non-whitespace characters of `s`, in order.
pub open spec fn fields(s: Seq<char>) -> Seq<Seq<char>> {
    let (closed, open) = field_scan(s);
    if open.len() == 0 {
        closed
    } else {
        closed.push(open)
    }
}

/// The part of a face field before its first `/`.
pub open spec fn leading_part(t: Seq<char>) -> Seq<char>
    decreases t.len(),
{
    if t.len() == 0 || t[0] == '/' {
        seq![]
    } else {
        seq![t[0]] + leading_part(t.drop_first())
    }
}

pub open spec fn is_digit(c: char) -> bool {
    '0' as u32 <= c as u32 <= '9' as u32
}

/// The number that a string of decimal digits denotes.
pub open spec fn digits_value(d: Seq<char>) -> nat
    decreases d.len(),
{
    if d.len() == 0 {
        0
    } else {
        digits_value(d.drop_last()) * 10 + (d.last() as u32 - '0' as u32) as nat
    }
}

pub open spec fn all_digits(d: Seq<char>) -> bool {
    forall|i: int| 0 <= i < d.len() ==> is_digit(#[trigger] d[i])
}

/// `s` without the `+` sign that may lead it.
pub open spec fn unsigned_digits(s: Seq<char>) -> Seq<char> {
    if s.len() > 0 && s[0] == '+' {
        s.drop_first()
    } else {
        s
    }
}

/// The vertex reference that a field's leading part reads as: decimal
/// digits after an optional `+`, whose value fits in `usize`.
pub open spec fn reference_of(s: Seq<char>) -> Option<usize> {
    let d = unsigned_digits(s);
    if d.len() > 0 && all_digits(d) && digits_value(d) <= usize::MAX {
        Some(digits_value(d) as usize)
    } else {
        None
    }
}

/// The references of a face line's fields, skipping the fields whose
/// leading part is no reference.
pub open spec fn face_refs(fs: Seq<Seq<char>>) -> Seq<usize>
    decreases fs.len(),
{
    if fs.len() == 0 {
        seq![]
    } else {
        let before = face_refs(fs.drop_last());
        match reference_of(leading_part(fs.last())) {
            Some(r) => before.push(r),
            None => before,
        }
    }
}

/// The entry that a line with fields `fs` gives: a vertex when its first
/// field is `v` and three more follow, a face when its first field is `f`.
pub open spec fn entry_of_fields(fs: Seq<Seq<char>>) -> Option<EntryView> {
    if fs.len() >= 4 && fs[0] == seq!['v'] {
        Some(EntryView::Vertex(fs[1], fs[2], fs[3]))
    } else if fs.len() >= 1 && fs[0] == seq!['f'] {
        Some(EntryView::Face(face_refs(fs.drop_first())))
    } else {
        None
    }
}

pub open spec fn entry_of_line(line: Seq<char>) -> Option<EntryView> {
    entry_of_fields(fields(line))
}

/// Reads `s` left to right, splitting it at `\n`: the lines already ended,
/// and the line being read.
pub open spec fn line_scan(s: Seq<char>) -> (Seq<Seq<char>>, Seq<char>)
    decreases s.len(),
{
    if s.len() == 0 {
        (seq![], seq![])
    } else {
        let (ended, open) = line_scan(s.drop_last());
        if s.last() == '\n' {
            (ended.push(open), seq![])
        } else {
            (ended, open.push(s.last()))
        }
    }
}

/// The lines of `s`, separated by `\n`.
pub open spec fn lines(s: Seq<char>) -> Seq<Seq<char>> {
    let (ended, open) = line_scan(s);
    ended.push(open)
}

/// The entries that the lines `ls` give, in order.
pub open spec fn entries_of_lines(ls: Seq<Seq<char>>) -> Seq<EntryView>
    decreases ls.len(),
{
    if ls.len() == 0 {
        seq![]
    } else {
        let before = entries_of_lines(ls.drop_last());
        match entry_of_line(ls.last()) {
            Some(e) => before.push(e),
            None => before,
        }
    }
}

/// The entries of an OBJ text, in the order of its lines.
pub open spec fn obj_entries(text: Seq<char>) -> Seq<EntryView> {
    entries_of_lines(lines(text))
}

pub open spec fn entries_view(es: Seq<ObjEntry>) -> Seq<EntryView> {
    es.map_values(|e: ObjEntry| e@)
}

fn is_space_char(c: char) -> (r: bool)
    ensures
        r == is_space(c),
{
    let u = c as u32;
    c == '\t' || c == '\n' || c == '\u{0B}' || c == '\u{0C}' || c == '\r' || c == ' ' || c
        == '\u{85}' || c == '\u{A0}' || c == '\u{1680}' || (0x2000 <= u && u <= 0x200A) || c
        == '\u{2028}' || c == '\u{2029}' || c == '\u{202F}' || c == '\u{205F}' || c == '\u{3000}'
}

proof fn lemma_leading_part_upto(t: Seq<char>, k: int)
    requires
        0 <= k <= t.len(),
        forall|j: int| 0 <= j < k ==> t[j] != '/',
        k == t.len() || t[k] == '/',
    ensures
        leading_part(t) == t.take(k),
    decreases k,
{
    if k == 0 {
        assert(t.take(0) =~= seq![]);
    } else {
        let rest = t.drop_first();
        assert forall|j: int| 0 <= j < k - 1 implies rest[j] != '/' by {
            assert(rest[j] == t[j + 1]);
        }
        lemma_leading_part_upto(rest, k - 1);
        assert(t.take(k) =~= seq![t[0]] + rest.take(k - 1));
    }
}

proof fn lemma_digits_value_prefix(d: Seq<char>, m: int)
    requires
        0 <= m <= d.len(),
        all_digits(d),
    ensures
        digits_value(d.take(m)) <= digits_value(d),
    decreases d.len() - m,
{
    if m < d.len() {
        let shorter = d.drop_last();
        assert(all_digits(shorter)) by {
            assert forall|i: int| 0 <= i < shorter.len() implies is_digit(#[trigger] shorter[i]) by {
                assert(shorter[i] == d[i]);
            }
        }
        lemma_digits_value_prefix(shorter, m);
        assert(shorter.take(m) =~= d.take(m));
        assert(is_digit(d[d.len() - 1]));
    } else {
        assert(d.take(m) =~= d);
    }
}

/// Reads the vertex reference at the head of a face field.
fn field_reference(t: &Vec<char>) -> (r: Option<usize>)
    ensures
        r == reference_of(leading_part(t@)),
{
    let mut k: usize = 0;
    while k < t.len() && t[k] != '/'
        invariant
            k <= t.len(),
            forall|j: int| 0 <= j < k ==> t@[j] != '/',
        decreases t.len() - k,
    {
        k = k + 1;
    }
    let ghost head = t@.take(k as int);
    proof {
        lemma_leading_part_upto(t@, k as int);
    }
    let start: usize = if k > 0 && t[0] == '+' {
        1
    } else {
        0
    };
    let ghost d = t@.subrange(start as int, k as int);
    assert(unsigned_digits(head) =~= d);
    if start == k {
        return None;
    }
    let mut value: usize = 0;
    let mut j: usize = start;
    while j < k
        invariant
            start <= j <= k <= t.len(),
            d == t@.subrange(start as int, k as int),
            unsigned_digits(head) == d,
            leading_part(t@) == head,
            d.len() > 0,
            all_digits(t@.subrange(start as int, j as int)),
            value == digits_value(t@.subrange(start as int, j as int)),
        decreases k - j,
    {
        let c = t[j];
        let ghost upto = t@.subrange(start as int, j as int + 1);
        assert(upto.drop_last() =~= t@.subrange(start as int, j as int));
        let code = c as u32;
        if !('0' as u32 <= code && code <= '9' as u32) {
            assert(d[j - start] == c);
            assert(!is_digit(d[j - start]));
            return None;
        }
        let digit: usize = (code - '0' as u32) as usize;
        if value > (usize::MAX - digit) / 10 {
            assert(value * 10 + digit > usize::MAX) by (nonlinear_arith)
                requires
                    value > (usize::MAX - digit) / 10,
                    digit <= 9,
            ;
            proof {
                if all_digits(d) {
                    assert(d.take(j - start + 1) =~= upto);
                    lemma_digits_value_prefix(d, j - start + 1);
                }
            }
            return None;
        }
        assert(value * 10 + digit <= usize::MAX) by (nonlinear_arith)
            requires
                value <= (usize::MAX - digit) / 10,
                digit <= 9,
        ;
        value = value * 10 + digit;
        j = j + 1;
        assert(all_digits(t@.subrange(start as int, j as int))) by {
            assert forall|i: int| 0 <= i < upto.len() implies is_digit(#[trigger] upto[i]) by {
                if i < upto.len() - 1 {
                    assert(upto[i] == upto.drop_last()[i]);
                }
            }
        }
    }
    assert(t@.subrange(start as int, j as int) =~= d);
    Some(value)
}

pub open spec fn entry_view(e: Option<ObjEntry>) -> Option<EntryView> {
    match e {
        Some(e) => Some(e@),
        None => None,
    }
}

/// Relies on `String`'s `FromIterator<char>`: the string holds the given
/// characters, in order.
#[verifier::external_body]
fn string_of(chars: &Vec<char>) -> (s: String)
    ensures
        s@ == chars@,
{
    chars.iter().collect()
}

proof fn lemma_field_views(fs: &Vec<Vec<char>>)
    ensures
        fs.deep_view().len() == fs.len(),
        forall|i: int| 0 <= i < fs.len() ==> #[trigger] fs.deep_view()[i] == fs@[i]@,
{
    assert forall|i: int| 0 <= i < fs.len() implies #[trigger] fs.deep_view()[i] == fs@[i]@ by {
        assert(fs.deep_view()[i] =~= fs@[i]@);
    }
}

/// The entry that a line with the given fields gives, if any.
fn entry_from_fields(fs: &Vec<Vec<char>>) -> (r: Option<ObjEntry>)
    ensures
        entry_view(r) == entry_of_fields(fs.deep_view()),
{
    let ghost view = fs.deep_view();
    proof {
        lemma_field_views(fs);
    }
    if fs.len() == 0 || fs[0].len() != 1 {
        proof {
            if fs.len() > 0 {
                assert(view[0].len() != 1);
            }
        }
        return None;
    }
    let head = fs[0][0];
    proof {
        assert(view[0] =~= seq![head]);
    }
    if head == 'v' {
        if fs.len() < 4 {
            return None;
        }
        let x = string_of(&fs[1]);
        let y = string_of(&fs[2]);
        let z = string_of(&fs[3]);
        return Some(ObjEntry::Vertex { x, y, z });
    }
    if head != 'f' {
        return None;
    }
    let ghost rest = view.drop_first();
    let mut refs: Vec<usize> = Vec::new();
    let mut i: usize = 1;
    while i < fs.len()
        invariant
            1 <= i <= fs.len(),
            view == fs.deep_view(),
            view.len() == fs.len(),
            forall|j: int| 0 <= j < fs.len() ==> #[trigger] view[j] == fs@[j]@,
            rest == view.drop_first(),
            refs@ == face_refs(rest.take(i - 1)),
        decreases fs.len() - i,
    {
        let r = field_reference(&fs[i]);
        proof {
            assert(rest.take(i as int).drop_last() =~= rest.take(i - 1));
            assert(rest.take(i as int).last() == fs[i as int]@);
        }
        match r {
            Some(r) => refs.push(r),
            None => {},
        }
        i = i + 1;
    }
    assert(rest.take(i - 1) =~= rest);
    Some(ObjEntry::Face { refs })
}

/// Closes the field being read, if any: `closed` gets it, `open` is emptied.
fn close_field(closed: &mut Vec<Vec<char>>, open: &mut Vec<char>)
    ensures
        final(open)@ == Seq::<char>::empty(),
        final(closed).deep_view() == if old(open)@.len() == 0 {
            old(closed).deep_view()
        } else {
            old(closed).deep_view().push(old(open)@)
        },
{
    if open.len() > 0 {
        proof {
            lemma_field_views(closed);
        }
        let ghost before = closed.deep_view();
        let field = open.clone();
        *open = Vec::new();
        closed.push(field);
        proof {
            lemma_field_views(closed);
            assert(closed.deep_view() =~= before.push(old(open)@));
        }
    }
}

/// Finishes a line whose fields are `closed` and `open`: its entry, if any,
/// goes to `entries`, and both are emptied.
fn finish_line(
    entries: &mut Vec<ObjEntry>,
    closed: &mut Vec<Vec<char>>,
    open: &mut Vec<char>,
    Ghost(line): Ghost<Seq<char>>,
)
    requires
        (old(closed).deep_view(), old(open)@) == field_scan(line),
    ensures
        entries_view(final(entries)@) == match entry_of_line(line) {
            Some(e) => entries_view(old(entries)@).push(e),
            None => entries_view(old(entries)@),
        },
        final(closed).deep_view() == Seq::<Seq<char>>::empty(),
        final(open)@ == Seq::<char>::empty(),
{
    close_field(closed, open);
    assert(closed.deep_view() == fields(line));
    let entry = entry_from_fields(closed);
    match entry {
        Some(e) => {
            entries.push(e);
            assert(entries_view(entries@) =~= entries_view(old(entries)@).push(e@));
        },
        None => {},
    }
    *closed = Vec::new();
    assert(closed.deep_view() =~= Seq::<Seq<char>>::empty());
}

/// Reads the vertex and face lines of an OBJ text, in order. Other lines,
/// and vertex lines with fewer than three coordinate fields, give nothing.
pub fn parse_obj(text: &str) -> (entries: Vec<ObjEntry>)
    ensures
        entries_view(entries@) == obj_entries(text@),
{
    let mut entries: Vec<ObjEntry> = Vec::new();
    let mut closed: Vec<Vec<char>> = Vec::new();
    let mut open: Vec<char> = Vec::new();
    let ghost mut ended: Seq<Seq<char>> = seq![];
    let ghost mut line: Seq<char> = seq![];
    assert(closed.deep_view() =~= Seq::<Seq<char>>::empty());
    assert(entries_view(entries@) =~= Seq::<EntryView>::empty());
    for c in it: text.chars()
        invariant
            it.seq() == text@,
            line_scan(text@.take(it.index() as int)) == (ended, line),
            entries_view(entries@) == entries_of_lines(ended),
            (closed.deep_view(), open@) == field_scan(line),
    {
        let ghost pre = text@.take(it.index() as int);
        let ghost next = text@.take(it.index() as int + 1);
        assert(next.drop_last() =~= pre);
        if c == '\n' {
            finish_line(&mut entries, &mut closed, &mut open, Ghost(line));
            proof {
                assert(ended.push(line).drop_last() =~= ended);
                ended = ended.push(line);
                line = seq![];
            }
            assert(closed.deep_view() =~= Seq::<Seq<char>>::empty());
        } else {
            if !is_space_char(c) {
                open.push(c);
            } else {
                close_field(&mut closed, &mut open);
            }
            proof {
                assert(line.push(c).drop_last() =~= line);
                line = line.push(c);
            }
        }
    }
    assert(text@.take(text@.len() as int) =~= text@);
    finish_line(&mut entries, &mut closed, &mut open, Ghost(line));
    assert(ended.push(line).drop_last() =~= ended);
    entries
}

/// The number of vertex entries in `es`.
pub open spec fn vertex_entries(es: Seq<EntryView>) -> nat
    decreases es.len(),
{
    if es.len() == 0 {
        0
    } else {
        vertex_entries(es.drop_last()) + if es.last() is Vertex {
            1nat
        } else {
            0nat
        }
    }
}

/// Whether the vertex entry at position `k` among the vertex entries was
/// accepted; positions past the end of `accepted` were not.
pub open spec fn is_accepted(accepted: Seq<bool>, k: int) -> bool {
    0 <= k < accepted.len() && accepted[k]
}

/// How many of the first `n` vertex entries were accepted.
pub open spec fn accepted_among(accepted: Seq<bool>, n: nat) -> nat
    decreases n,
{
    if n == 0 {
        0
    } else {
        accepted_among(accepted, (n - 1) as nat) + if is_accepted(accepted, n - 1) {
            1nat
        } else {
            0nat
        }
    }
}

/// Whether every 1-based reference of `refs` names one of the first
/// `count` accepted vertices.
pub open spec fn refs_within(refs: Seq<usize>, count: nat) -> bool {
    forall|i: int| 0 <= i < refs.len() ==> 1 <= #[trigger] refs[i] <= count
}

/// The corners of the faces of `es`, each the 0-based position of a vertex
/// among the accepted ones, face after face. A face resolves against the
/// vertices accepted on the lines above it; a face with a reference out of
/// that range gives no corners.
pub open spec fn corners_of(es: Seq<EntryView>, accepted: Seq<bool>) -> Seq<usize>
    decreases es.len(),
{
    if es.len() == 0 {
        seq![]
    } else {
        let before = corners_of(es.drop_last(), accepted);
        match es.last() {
            EntryView::Vertex(..) => before,
            EntryView::Face(refs) => {
                if refs_within(refs, accepted_among(accepted, vertex_entries(es.drop_last()))) {
                    before + refs.map_values(|r: usize| (r - 1) as usize)
                } else {
                    before
                }
            },
        }
    }
}

/// The number of vertices accepted among all vertex entries of `es`.
pub open spec fn accepted_count(es: Seq<EntryView>, accepted: Seq<bool>) -> nat {
    accepted_among(accepted, vertex_entries(es))
}

proof fn lemma_vertex_entries_bound(es: Seq<EntryView>)
    ensures
        vertex_entries(es) <= es.len(),
    decreases es.len(),
{
    if es.len() > 0 {
        lemma_vertex_entries_bound(es.drop_last());
    }
}

proof fn lemma_accepted_among_bound(accepted: Seq<bool>, n: nat)
    ensures
        accepted_among(accepted, n) <= n,
    decreases n,
{
    if n > 0 {
        lemma_accepted_among_bound(accepted, (n - 1) as nat);
    }
}

/// Resolves the faces of `entries` into corners. `accepted` holds, for each
/// vertex entry in order, whether its coordinates were read; only accepted
/// vertices can be referenced, and they are numbered from 1 in file order.
pub fn resolve_faces(entries: &Vec<ObjEntry>, accepted: &Vec<bool>) -> (corners: Vec<usize>)
    ensures
        corners@ == corners_of(entries_view(entries@), accepted@),
        forall|j: int|
            0 <= j < corners.len() ==> #[trigger] corners[j] < accepted_count(
                entries_view(entries@),
                accepted@,
            ),
{
    let ghost es = entries_view(entries@);
    let mut corners: Vec<usize> = Vec::new();
    let mut seen: usize = 0;
    let mut avail: usize = 0;
    let mut i: usize = 0;
    while i < entries.len()
        invariant
            i <= entries.len(),
            es == entries_view(entries@),
            seen == vertex_entries(es.take(i as int)),
            avail == accepted_among(accepted@, seen as nat),
            corners@ == corners_of(es.take(i as int), accepted@),
            forall|j: int| 0 <= j < corners.len() ==> #[trigger] corners[j] < avail,
        decreases entries.len() - i,
    {
        let ghost upto = es.take(i as int + 1);
        assert(upto.drop_last() =~= es.take(i as int));
        assert(upto.last() == entries@[i as int]@);
        proof {
            lemma_vertex_entries_bound(es.take(i as int));
        }
        match &entries[i] {
            ObjEntry::Vertex { .. } => {
                proof {
                    lemma_accepted_among_bound(accepted@, seen as nat);
                }
                if seen < accepted.len() && accepted[seen] {
                    avail = avail + 1;
                }
                seen = seen + 1;
            },
            ObjEntry::Face { refs } => {
                let mut within = true;
                let mut k: usize = 0;
                while k < refs.len()
                    invariant
                        k <= refs.len(),
                        within == (forall|m: int| 0 <= m < k ==> 1 <= #[trigger] refs@[m] <= avail),
                    decreases refs.len() - k,
                {
                    within = within && 1 <= refs[k] && refs[k] <= avail;
                    k = k + 1;
                }
                if within {
                    let ghost before = corners@;
                    let mut k: usize = 0;
                    while k < refs.len()
                        invariant
                            k <= refs.len(),
                            forall|m: int| 0 <= m < refs.len() ==> 1 <= #[trigger] refs@[m] <= avail,
                            corners@ == before + refs@.take(k as int).map_values(
                                |r: usize| (r - 1) as usize,
                            ),
                            forall|j: int| 0 <= j < corners.len() ==> #[trigger] corners[j] < avail,
                        decreases refs.len() - k,
                    {
                        corners.push(refs[k] - 1);
                        k = k + 1;
                        assert(refs@.take(k as int).map_values(|r: usize| (r - 1) as usize)
                            =~= refs@.take(k - 1).map_values(|r: usize| (r - 1) as usize).push(
                            (refs[k - 1] - 1) as usize,
                        ));
                    }
                    assert(refs@.take(k as int) =~= refs@);
                }
            },
        }
        i = i + 1;
    }
    assert(es.take(i as int) =~= es);
    corners
}

/// Groups corners into triangles, three consecutive corners each; one or
/// two corners left over at the end form no triangle.
pub fn group_triangles(corners: &Vec<usize>) -> (triangles: Vec<(usize, usize, usize)>)
    ensures
        triangles.len() == corners.len() / 3,
        forall|i: int|
            0 <= i < triangles.len() ==> #[trigger] triangles[i] == (
                corners[3 * i],
                corners[3 * i + 1],
                corners[3 * i + 2],
            ),
{
    let mut triangles: Vec<(usize, usize, usize)> = Vec::new();
    let mut k: usize = 0;
    while corners.len() - k >= 3
        invariant
            k <= corners.len(),
            k == 3 * triangles.len(),
            forall|i: int|
                0 <= i < triangles.len() ==> #[trigger] triangles[i] == (
                    corners[3 * i],
                    corners[3 * i + 1],
                    corners[3 * i + 2],
                ),
        decreases corners.len() - k,
    {
        triangles.push((corners[k], corners[k + 1], corners[k + 2]));
        k = k + 3;
    }
    triangles
}

proof fn lemma_entryless_line_in_lines(before: Seq<Seq<char>>, extra: Seq<char>, after: Seq<Seq<char>>)
    requires
        entry_of_line(extra) is None,
    ensures
        entries_of_lines(before.push(extra) + after) == entries_of_lines(before + after),
    decreases after.len(),
{
    if after.len() == 0 {
        assert(before.push(extra) + after =~= before.push(extra));
        assert(before + after =~= before);
        assert(before.push(extra).drop_last() =~= before);
    } else {
        lemma_entryless_line_in_lines(before, extra, after.drop_last());
        assert((before.push(extra) + after).last() == after.last());
        assert((before + after).last() == after.last());
        assert((before.push(extra) + after).drop_last() =~= before.push(extra) + after.drop_last());
        assert((before + after).drop_last() =~= before + after.drop_last());
    }
}

/// Whether `s` is empty or ends a line, so that a new line starts after it.
pub open spec fn at_line_start(s: Seq<char>) -> bool {
    s.len() == 0 || s.last() == '\n'
}

proof fn lemma_line_scan_ends_at_line_start(a: Seq<char>)
    requires
        at_line_start(a),
    ensures
        line_scan(a).1 == Seq::<char>::empty(),
{
}

proof fn lemma_lines_after_line_start(a: Seq<char>, b: Seq<char>)
    requires
        at_line_start(a),
    ensures
        line_scan(a + b) == (line_scan(a).0 + line_scan(b).0, line_scan(b).1),
    decreases b.len(),
{
    if b.len() == 0 {
        assert(a + b =~= a);
        lemma_line_scan_ends_at_line_start(a);
        assert(line_scan(a).0 + line_scan(b).0 =~= line_scan(a).0);
    } else {
        lemma_lines_after_line_start(a, b.drop_last());
        assert((a + b).drop_last() =~= a + b.drop_last());
        assert((a + b).last() == b.last());
        let (e, o) = line_scan(b.drop_last());
        assert(line_scan(a).0 + e.push(o) =~= (line_scan(a).0 + e).push(o));
    }
}

proof fn lemma_line_scan_without_newline(l: Seq<char>)
    requires
        !l.contains('\n'),
    ensures
        line_scan(l) == (Seq::<Seq<char>>::empty(), l),
    decreases l.len(),
{
    if l.len() > 0 {
        assert(!l.drop_last().contains('\n')) by {
            if l.drop_last().contains('\n') {
                let i = choose|i: int| 0 <= i < l.drop_last().len() && l.drop_last()[i] == '\n';
                assert(l[i] == '\n');
            }
        }
        lemma_line_scan_without_newline(l.drop_last());
        assert(l.drop_last().push(l.last()) =~= l);
        assert(l[l.len() - 1] != '\n');
    }
}

/// Inserting a line that gives no entry (a blank line, a comment, a line
/// with another identifier, a vertex line short of a coordinate) at the
/// start of any line leaves the entries of an OBJ text unchanged.
pub proof fn lemma_entryless_line_ignored(a: Seq<char>, extra: Seq<char>, b: Seq<char>)
    requires
        at_line_start(a),
        !extra.contains('\n'),
        entry_of_line(extra) is None,
    ensures
        obj_entries(a + (extra.push('\n') + b)) == obj_entries(a + b),
{
    let line = extra.push('\n');
    lemma_line_scan_without_newline(extra);
    assert(line.drop_last() =~= extra);
    assert(line_scan(line) == (seq![extra], Seq::<char>::empty()));
    lemma_lines_after_line_start(line, b);
    lemma_lines_after_line_start(a, line + b);
    lemma_lines_after_line_start(a, b);
    let before = line_scan(a).0;
    let (e, o) = line_scan(b);
    assert(lines(a + (line + b)) =~= before.push(extra) + e.push(o));
    assert(lines(a + b) =~= before + e.push(o));
    lemma_entryless_line_in_lines(before, extra, e.push(o));
}

proof fn lemma_vertex_entries_concat(x: Seq<EntryView>, y: Seq<EntryView>)
    ensures
        vertex_entries(x + y) == vertex_entries(x) + vertex_entries(y),
    decreases y.len(),
{
    if y.len() == 0 {
        assert(x + y =~= x);
    } else {
        lemma_vertex_entries_concat(x, y.drop_last());
        assert((x + y).drop_last() =~= x + y.drop_last());
    }
}

proof fn lemma_accepted_among_skip(acc1: Seq<bool>, acc2: Seq<bool>, n: nat)
    ensures
        n <= acc1.len() ==> accepted_among(acc1.push(false) + acc2, n) == accepted_among(
            acc1 + acc2,
            n,
        ),
        n >= acc1.len() ==> accepted_among(acc1.push(false) + acc2, n + 1) == accepted_among(
            acc1 + acc2,
            n,
        ),
    decreases n,
{
    let x = acc1.push(false) + acc2;
    let y = acc1 + acc2;
    if n > 0 {
        lemma_accepted_among_skip(acc1, acc2, (n - 1) as nat);
        if n <= acc1.len() {
            assert(x[n - 1] == y[n - 1]);
            assert(is_accepted(x, n - 1) == is_accepted(y, n - 1));
        }
    }
    if n >= acc1.len() {
        assert(accepted_among(x, n + 1) == accepted_among(x, n) + if is_accepted(x, n as int) {
            1nat
        } else {
            0nat
        });
        if n == acc1.len() {
            assert(x[n as int] == false);
            assert(!is_accepted(x, n as int));
        } else {
            if n < x.len() {
                assert(x[n as int] == y[n - 1]);
            }
            assert(is_accepted(x, n as int) == is_accepted(y, n - 1));
        }
    }
}

proof fn lemma_corners_same_prefix(es: Seq<EntryView>, acc1: Seq<bool>, acc2: Seq<bool>)
    requires
        vertex_entries(es) <= acc1.len(),
    ensures
        corners_of(es, acc1.push(false) + acc2) == corners_of(es, acc1 + acc2),
    decreases es.len(),
{
    if es.len() > 0 {
        lemma_corners_same_prefix(es.drop_last(), acc1, acc2);
        lemma_accepted_among_skip(acc1, acc2, vertex_entries(es.drop_last()));
    }
}

/// A vertex whose coordinates were not read takes no number: inserting one,
/// not accepted, anywhere among the entries leaves the corners unchanged.
pub proof fn lemma_rejected_vertex_ignored(
    es1: Seq<EntryView>,
    v: EntryView,
    es2: Seq<EntryView>,
    acc1: Seq<bool>,
    acc2: Seq<bool>,
)
    requires
        v is Vertex,
        acc1.len() == vertex_entries(es1),
    ensures
        corners_of(es1.push(v) + es2, acc1.push(false) + acc2) == corners_of(es1 + es2, acc1 + acc2),
    decreases es2.len(),
{
    if es2.len() == 0 {
        assert(es1.push(v) + es2 =~= es1.push(v));
        assert(es1 + es2 =~= es1);
        assert(es1.push(v).drop_last() =~= es1);
        lemma_corners_same_prefix(es1, acc1, acc2);
    } else {
        let w = es2.drop_last();
        lemma_rejected_vertex_ignored(es1, v, w, acc1, acc2);
        assert((es1.push(v) + es2).drop_last() =~= es1.push(v) + w);
        assert((es1 + es2).drop_last() =~= es1 + w);
        assert((es1.push(v) + es2).last() == es2.last());
        assert((es1 + es2).last() == es2.last());
        lemma_vertex_entries_concat(es1.push(v), w);
        lemma_vertex_entries_concat(es1, w);
        assert(es1.push(v).drop_last() =~= es1);
        lemma_accepted_among_skip(acc1, acc2, vertex_entries(es1 + w));
    }
}

} // verus!
