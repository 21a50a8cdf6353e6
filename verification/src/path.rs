//! Unix paths as text and as bytes.
use crate::text;
use vstd::prelude::*;
use vstd::slice::slice_subrange;
use vstd::string::*;

verus! {

/// A component of a path.
pub enum Component {
    /// The slash that an absolute path starts with.
    Root,
    /// A leading single dot.
    Current,
    /// Two dots.
    Parent,
    /// A name.
    Normal(Seq<char>),
}

/// The component that a part between slashes makes, if any: empty parts make none, and a single
/// dot only in front.
pub open spec fn component_of(part: Seq<char>, first: bool) -> Seq<Component> {
    if part == ""@ {
        Seq::empty()
    } else if part == "."@ {
        if first {
            seq![Component::Current]
        } else {
            Seq::empty()
        }
    } else if part == ".."@ {
        seq![Component::Parent]
    } else {
        seq![Component::Normal(part)]
    }
}

/// The components of the parts between slashes.
pub open spec fn components_of(parts: Seq<Seq<char>>) -> Seq<Component>
    decreases parts.len(),
{
    if parts.len() == 0 {
        Seq::empty()
    } else {
        components_of(parts.drop_last()) + component_of(parts.last(), parts.len() == 1)
    }
}

/// Whether a path is absolute.
pub open spec fn is_absolute(path: Seq<char>) -> bool {
    path.len() > 0 && path[0] == '/'
}

/// The components of a path.
pub open spec fn components(path: Seq<char>) -> Seq<Component> {
    (if is_absolute(path) {
        seq![Component::Root]
    } else {
        Seq::empty()
    }) + components_of(text::split(path, '/'))
}

/// The name that a path ends with, if it ends with one.
pub open spec fn file_name(path: Seq<char>) -> Option<Seq<char>> {
    let parts = components(path);
    if parts.len() > 0 {
        match parts.last() {
            Component::Normal(name) => Some(name),
            _ => None,
        }
    } else {
        None
    }
}

/// What stands behind the last slash of a path.
pub open spec fn last_part(path: Seq<char>) -> Seq<char> {
    text::split(path, '/').last()
}

/// Behind its last slash a path has a name.
pub open spec fn ends_with_name(path: Seq<char>) -> bool {
    last_part(path) != ""@ && last_part(path) != "."@ && last_part(path) != ".."@
}

/// A text is split into at least one part.
pub proof fn lemma_split_some(s: Seq<char>, c: char)
    ensures
        text::split(s, c).len() > 0,
    decreases s.len(),
{
    if text::len_before(s, c) < s.len() {
        lemma_split_some(s.skip(text::len_before(s, c) as int + 1), c);
    }
}

/// Text without the separator becomes part of the last part.
pub proof fn lemma_split_grows(s: Seq<char>, t: Seq<char>, c: char)
    requires
        !t.contains(c),
    ensures
        text::split(s + t, c) == text::split(s, c).drop_last().push(text::split(s, c).last() + t),
    decreases s.len(),
{
    let n = text::len_before(s, c);
    text::lemma_len_before(s, c);
    text::lemma_len_before(s + t, c);
    if n < s.len() {
        assert((s + t)[n as int] == c);
        assert(text::len_before(s + t, c) == n) by {
            let m = text::len_before(s + t, c);
            if m < n {
                assert((s + t)[m as int] == s[m as int]);
            }
        }
        let rest = s.skip(n as int + 1);
        lemma_split_grows(rest, t, c);
        lemma_split_some(rest, c);
        assert((s + t).skip(n as int + 1) =~= rest + t);
        assert((s + t).take(n as int) =~= s.take(n as int));
        assert(text::split(s + t, c) =~= text::split(s, c).drop_last().push(
            text::split(s, c).last() + t,
        ));
    } else {
        let m = text::len_before(s + t, c);
        if m < (s + t).len() {
            assert((s + t)[m as int] == c);
            if m < s.len() {
                assert(s[m as int] == c);
            } else {
                assert(t[m - s.len()] == c);
            }
        }
        assert(text::split(s + t, c) =~= text::split(s, c).drop_last().push(
            text::split(s, c).last() + t,
        ));
    }
}

/// Text without a slash makes the last part of a path longer.
pub proof fn lemma_last_part_grows(path: Seq<char>, t: Seq<char>)
    requires
        !t.contains('/'),
    ensures
        last_part(path + t) == last_part(path) + t,
{
    lemma_split_grows(path, t, '/');
}

/// The name that a path ends with stands behind its last slash.
pub proof fn lemma_name_is_last_part(path: Seq<char>)
    requires
        ends_with_name(path),
    ensures
        file_name(path) == Some(last_part(path)),
{
    lemma_split_some(path, '/');
    let parts = text::split(path, '/');
    assert(components_of(parts).last() == Component::Normal(last_part(path)));
    assert(components(path).last() == Component::Normal(last_part(path)));
}

/// The parts of a text hold no separator.
pub proof fn lemma_parts_without_separator(s: Seq<char>, c: char)
    ensures
        forall|i: int|
            0 <= i < text::split(s, c).len() ==> !(#[trigger] text::split(s, c)[i]).contains(c),
    decreases s.len(),
{
    let n = text::len_before(s, c);
    text::lemma_len_before(s, c);
    let parts = text::split(s, c);
    if n < s.len() {
        let rest = s.skip(n as int + 1);
        lemma_parts_without_separator(rest, c);
        assert forall|i: int| 0 <= i < parts.len() implies !(#[trigger] parts[i]).contains(c) by {
            if i > 0 {
                assert(parts[i] == text::split(rest, c)[i - 1]);
            }
        }
    }
}

/// The name that a path ends with is one of its parts.
pub proof fn lemma_name_is_a_part(path: Seq<char>)
    ensures
        file_name(path) matches Some(name) ==> text::split(path, '/').contains(name),
{
    let parts = text::split(path, '/');
    lemma_components_are_parts(parts);
    if let Some(name) = file_name(path) {
        assert(components(path).last() == components_of(parts).last());
        assert(components_of(parts)[components_of(parts).len() - 1] == Component::Normal(name));
    }
}

proof fn lemma_components_are_parts(parts: Seq<Seq<char>>)
    ensures
        forall|i: int|
            0 <= i < components_of(parts).len() ==> (#[trigger] components_of(parts)[i] matches
                Component::Normal(name) ==> parts.contains(name)),
    decreases parts.len(),
{
    if parts.len() > 0 {
        let front = parts.drop_last();
        lemma_components_are_parts(front);
        assert forall|i: int| 0 <= i < components_of(parts).len() implies (
        #[trigger] components_of(parts)[i] matches Component::Normal(name) ==> parts.contains(
            name,
        )) by {
            if let Component::Normal(name) = components_of(parts)[i] {
                if i < components_of(front).len() {
                    assert(components_of(front)[i] == Component::Normal(name));
                    let j = choose|j: int| 0 <= j < front.len() && front[j] == name;
                    assert(parts[j] == name);
                } else {
                    assert(parts[parts.len() - 1] == name);
                }
            }
        }
    }
}

/// A component of a path.
pub enum Part {
    Root,
    Current,
    Parent,
    Normal(Vec<char>),
}

impl View for Part {
    type V = Component;

    open spec fn view(&self) -> Component {
        match *self {
            Part::Root => Component::Root,
            Part::Current => Component::Current,
            Part::Parent => Component::Parent,
            Part::Normal(name) => Component::Normal(name@),
        }
    }
}

/// What the parts of a path are.
pub open spec fn parts_view(v: Seq<Part>) -> Seq<Component> {
    Seq::new(v.len(), |i: int| v[i]@)
}

/// The components of a path.
pub fn split_components(path: &[char]) -> (r: Vec<Part>)
    ensures
        parts_view(r@) == components(path@),
{
    let mut out: Vec<Part> = Vec::new();
    if path.len() > 0 && path[0] == '/' {
        out.push(Part::Root);
    }
    let ghost root = parts_view(out@);
    let pieces = text::split_at_each(path, '/');
    let ghost all = text::pieces(pieces@);
    proof {
        assert(root =~= if is_absolute(path@) {
            seq![Component::Root]
        } else {
            Seq::empty()
        });
        assert(parts_view(out@) =~= root + components_of(all.take(0)));
    }
    for i in 0..pieces.len()
        invariant
            all == text::pieces(pieces@),
            parts_view(out@) == root + components_of(all.take(i as int)),
    {
        let ghost before = out@;
        let ghost done = components_of(all.take(i as int));
        let ghost added = component_of(all[i as int], i == 0);
        proof {
            assert(all.take(i + 1).drop_last() =~= all.take(i as int));
            assert(all[i as int] == pieces[i as int]@);
        }
        if text::spells(pieces[i].as_slice(), "") {
        } else if text::spells(pieces[i].as_slice(), ".") {
            if i == 0 {
                out.push(Part::Current);
            }
        } else if text::spells(pieces[i].as_slice(), "..") {
            out.push(Part::Parent);
        } else {
            out.push(Part::Normal(text::copy_chars(pieces[i].as_slice())));
        }
        proof {
            assert(parts_view(out@) =~= parts_view(before) + added);
            assert(root + done + added =~= root + (done + added));
        }
    }
    assert(all.take(pieces.len() as int) =~= all);
    out
}

/// The name that a path ends with, if it ends with one.
pub fn name_of(path: &[char]) -> (r: Option<Vec<char>>)
    ensures
        match r {
            Some(name) => file_name(path@) == Some(name@),
            None => file_name(path@) is None,
        },
{
    let parts = split_components(path);
    assert(parts_view(parts@).len() == parts.len());
    if parts.len() == 0 {
        return None;
    }
    assert(parts_view(parts@).last() == parts[parts.len() - 1]@);
    match &parts[parts.len() - 1] {
        Part::Normal(name) => Some(text::copy_chars(name.as_slice())),
        _ => None,
    }
}

/// A path as seen from a directory: the two with one slash between them. An absolute path, and a
/// path seen from an empty one, stays what it is.
pub open spec fn joined(dir: Seq<u8>, path: Seq<u8>) -> Seq<u8> {
    if path.len() > 0 && path[0] == 0x2f {
        path
    } else if dir.len() == 0 || dir.last() == 0x2f {
        dir + path
    } else {
        dir.push(0x2f) + path
    }
}

/// The bytes of text that is known to be ASCII.
pub open spec fn ascii_bytes(s: Seq<char>) -> Seq<u8> {
    Seq::new(s.len(), |i: int| s[i] as u8)
}

/// A copy of `a` with `b` behind it.
pub fn concat_bytes(a: &[u8], b: &[u8]) -> (r: Vec<u8>)
    ensures
        r@ == a@ + b@,
{
    let mut r: Vec<u8> = Vec::new();
    for i in 0..a.len()
        invariant
            r@ == a@.take(i as int),
    {
        r.push(a[i]);
    }
    assert(a@.take(a.len() as int) =~= a@);
    for i in 0..b.len()
        invariant
            r@ == a@ + b@.take(i as int),
    {
        r.push(b[i]);
    }
    assert(b@.take(b.len() as int) =~= b@);
    r
}

/// A copy of bytes.
pub fn copy_bytes(a: &[u8]) -> (r: Vec<u8>)
    ensures
        r@ == a@,
{
    let r = concat_bytes(a, &[]);
    assert(r@ =~= a@);
    r
}

/// A path as seen from a directory.
pub fn join(dir: &[u8], path: &[u8]) -> (r: Vec<u8>)
    ensures
        r@ == joined(dir@, path@),
{
    if path.len() > 0 && path[0] == 0x2f {
        copy_bytes(path)
    } else if dir.len() == 0 || dir[dir.len() - 1] == 0x2f {
        concat_bytes(dir, path)
    } else {
        let mut d = copy_bytes(dir);
        d.push(0x2f);
        concat_bytes(d.as_slice(), path)
    }
}

/// The length of what stands before the names in a path: a slash at the start, or a dot for the
/// working directory.
pub open spec fn lead_len(path: Seq<u8>) -> nat {
    if path.len() > 0 && (path[0] == 0x2f || (path[0] == 0x2e && (path.len() == 1 || path[1]
        == 0x2f))) {
        1
    } else {
        0
    }
}

/// How many bytes stand behind the last slash, of those from `lead` on.
pub open spec fn tail_len(path: Seq<u8>, lead: nat) -> nat
    decreases path.len(),
{
    if path.len() <= lead || path.last() == 0x2f {
        0
    } else {
        1 + tail_len(path.drop_last(), lead)
    }
}

/// A path without what stands behind its last slash, and without that slash, as far as these stand
/// from `lead` on.
pub open spec fn without_tail(path: Seq<u8>, lead: nat) -> Seq<u8> {
    let keep = path.len() - tail_len(path, lead) - 1;
    path.take(
        if keep >= lead {
            keep
        } else {
            lead as int
        },
    )
}

/// A path without slashes and single dots at its end, which name nothing.
pub open spec fn without_empty_end(path: Seq<u8>, lead: nat) -> Seq<u8>
    decreases path.len(),
{
    let tail = tail_len(path, lead);
    if path.len() > lead && (tail == 0 || (tail == 1 && path.last() == 0x2e)) {
        proof {
            lemma_tail_len(path, lead);
        }
        without_empty_end(without_tail(path, lead), lead)
    } else {
        path
    }
}

/// The directory that a path leads to and the name that it has there. A path that ends in two dots
/// or has no names in it has none.
pub open spec fn place_of(path: Seq<u8>) -> Option<(Seq<u8>, Seq<u8>)> {
    let lead = lead_len(path);
    let path = without_empty_end(path, lead);
    let name = path.skip(path.len() - tail_len(path, lead));
    if path.len() <= lead || name == seq![0x2eu8, 0x2eu8] {
        None
    } else {
        Some((without_empty_end(without_tail(path, lead), lead), name))
    }
}

/// What stands behind the last slash is no longer than the path.
pub proof fn lemma_tail_len(path: Seq<u8>, lead: nat)
    ensures
        tail_len(path, lead) <= path.len(),
        path.len() >= lead ==> tail_len(path, lead) <= path.len() - lead,
    decreases path.len(),
{
    if path.len() > lead && path.last() != 0x2f {
        lemma_tail_len(path.drop_last(), lead);
    }
}

/// There is no slash behind the last slash.
proof fn lemma_tail_has_no_slash(path: Seq<u8>, lead: nat)
    ensures
        !path.skip(path.len() - tail_len(path, lead)).contains(0x2f),
    decreases path.len(),
{
    lemma_tail_len(path, lead);
    if path.len() > lead && path.last() != 0x2f {
        let front = path.drop_last();
        let tail = path.skip(path.len() - tail_len(path, lead));
        lemma_tail_has_no_slash(front, lead);
        lemma_tail_len(front, lead);
        let rest = front.skip(front.len() - tail_len(front, lead));
        assert(tail =~= rest.push(path.last()));
        assert forall|i: int| 0 <= i < tail.len() implies tail[i] != 0x2f by {
            if i < rest.len() {
                assert(rest.contains(rest[i]));
            }
        }
    }
}

/// A name that stands behind a slash, or behind what stands before the names, is the tail.
pub proof fn lemma_tail_of_concat(front: Seq<u8>, name: Seq<u8>, lead: nat)
    requires
        !name.contains(0x2f),
        front.len() == lead || (front.len() > lead && front.last() == 0x2f),
    ensures
        tail_len(front + name, lead) == name.len(),
    decreases name.len(),
{
    let path = front + name;
    if name.len() == 0 {
        assert(path =~= front);
    } else {
        let rest = name.drop_last();
        assert(name.contains(name.last()));
        assert forall|i: int| 0 <= i < rest.len() implies rest[i] != 0x2f by {
            assert(name.contains(name[i]));
        }
        lemma_tail_of_concat(front, rest, lead);
        assert(path.drop_last() =~= front + rest);
    }
}

/// The name that a path leads to has no slash in it.
pub proof fn lemma_place_name(path: Seq<u8>)
    ensures
        place_of(path) matches Some((_, name)) ==> !name.contains(0x2f),
{
    let lead = lead_len(path);
    lemma_tail_has_no_slash(without_empty_end(path, lead), lead);
}

/// A path into a directory leads to the name that it was made from.
pub proof fn lemma_place_of_joined(dir: Seq<u8>, name: Seq<u8>)
    requires
        !name.contains(0x2f),
        name.len() > 2,
    ensures
        place_of(joined(dir, name)) matches Some((_, n)) && n == name,
{
    let path = joined(dir, name);
    let lead = lead_len(path);
    assert(name.contains(name[0]) && name.contains(name[1]));
    let front = if dir.len() == 0 || dir.last() == 0x2f {
        dir
    } else {
        dir.push(0x2f)
    };
    assert(path =~= front + name);
    if front.len() > 0 {
        assert(path[0] == front[0]);
        assert(front.last() == 0x2f);
    }
    lemma_tail_of_concat(front, name, lead);
    assert(path.skip(path.len() - tail_len(path, lead)) =~= name);
}

/// A path into a directory ends in the name that it was made from.
pub proof fn lemma_joined_tail(dir: Seq<u8>, name: Seq<u8>)
    requires
        !name.contains(0x2f),
    ensures
        joined(dir, name).skip(joined(dir, name).len() - tail_len(joined(dir, name), 0)) == name,
{
    if name.len() > 0 {
        assert(name.contains(name[0]));
    }
    let front = if dir.len() == 0 || dir.last() == 0x2f {
        dir
    } else {
        dir.push(0x2f)
    };
    lemma_tail_of_concat(front, name, 0);
    assert(joined(dir, name).skip(front.len() as int) =~= name);
}

/// Text without a slash is encoded without the byte for one.
pub proof fn lemma_encoded_without_slash(s: Seq<char>)
    requires
        !s.contains('/'),
    ensures
        !vstd::utf8::encode_utf8(s).contains(0x2f),
    decreases s.len(),
{
    if s.len() > 0 {
        let rest = s.drop_first();
        assert(s.contains(s[0]));
        assert forall|i: int| 0 <= i < rest.len() implies rest[i] != '/' by {
            assert(s.contains(s[i + 1]));
        }
        lemma_encoded_without_slash(rest);
        let c = s[0] as u32;
        let first = vstd::utf8::encode_scalar(c);
        let tail = vstd::utf8::encode_utf8(rest);
        vstd::utf8::char_u32_cast(s[0], c);
        vstd::utf8::char_u32_cast('/', '/' as u32);
        assert(c <= 0x7f ==> (c & 0x7f) == c) by (bit_vector);
        assert(forall|b: u8| #[trigger] (0xC0u8 | b) >= 0x80) by (bit_vector);
        assert(forall|b: u8| #[trigger] (0xE0u8 | b) >= 0x80) by (bit_vector);
        assert(forall|b: u8| #[trigger] (0xF0u8 | b) >= 0x80) by (bit_vector);
        assert(forall|b: u8| #[trigger] (0x80u8 | b) >= 0x80) by (bit_vector);
        assert(forall|i: int| 0 <= i < first.len() ==> first[i] != 0x2f);
        let whole = vstd::utf8::encode_utf8(s);
        assert(whole =~= first + tail);
        assert forall|i: int| 0 <= i < whole.len() implies whole[i] != 0x2f by {
            if i >= first.len() {
                assert(tail.contains(tail[i - first.len()]));
            }
        }
    }
}

/// Different texts are encoded differently.
pub proof fn lemma_encoded_apart(a: Seq<char>, b: Seq<char>)
    requires
        vstd::utf8::encode_utf8(a) == vstd::utf8::encode_utf8(b),
    ensures
        a == b,
{
    vstd::utf8::encode_utf8_decode_utf8(a);
    vstd::utf8::encode_utf8_decode_utf8(b);
}

/// Different names make different paths into a directory.
pub proof fn lemma_joined_apart(dir: Seq<u8>, a: Seq<u8>, b: Seq<u8>)
    requires
        !a.contains(0x2f),
        !b.contains(0x2f),
        joined(dir, a) == joined(dir, b),
    ensures
        a == b,
{
    if a.len() > 0 {
        assert(a.contains(a[0]));
    }
    if b.len() > 0 {
        assert(b.contains(b[0]));
    }
    let front = if dir.len() == 0 || dir.last() == 0x2f {
        dir
    } else {
        dir.push(0x2f)
    };
    assert(joined(dir, a).skip(front.len() as int) =~= a);
    assert(joined(dir, b).skip(front.len() as int) =~= b);
}

/// How many bytes stand behind the last slash, of those between `lead` and `end`.
fn count_tail(path: &[u8], lead: usize, end: usize) -> (r: usize)
    requires
        end <= path.len(),
    ensures
        r == tail_len(path@.take(end as int), lead as nat),
        r <= end,
        end >= lead ==> r <= end - lead,
{
    let mut n: usize = 0;
    assert(path@.take(end - 0) =~= path@.take(end as int));
    while n < end && end - n > lead && path[end - n - 1] != 0x2f
        invariant
            n <= end <= path.len(),
            n + tail_len(path@.take(end - n), lead as nat) == tail_len(
                path@.take(end as int),
                lead as nat,
            ),
        decreases end - n,
    {
        assert(path@.take(end - n).drop_last() =~= path@.take(end - n - 1));
        n = n + 1;
    }
    proof {
        lemma_tail_len(path@.take(end as int), lead as nat);
    }
    n
}

/// Where the path ends without what stands behind its last slash.
fn end_before_tail(lead: usize, end: usize, tail: usize) -> (r: usize)
    requires
        lead < end,
        tail <= end - lead,
    ensures
        r == if end - tail - 1 >= lead {
            end - tail - 1
        } else {
            lead as int
        },
        lead <= r < end,
{
    if tail < end - lead {
        end - tail - 1
    } else {
        lead
    }
}

/// Where the path ends without slashes and single dots.
fn end_of_names(path: &[u8], lead: usize, end: usize) -> (r: usize)
    requires
        lead <= end <= path.len(),
    ensures
        lead <= r <= end,
        path@.take(r as int) == without_empty_end(path@.take(end as int), lead as nat),
{
    let mut r: usize = end;
    while r > lead
        invariant_except_break
            lead <= r <= end <= path.len(),
            without_empty_end(path@.take(r as int), lead as nat) == without_empty_end(
                path@.take(end as int),
                lead as nat,
            ),
        ensures
            lead <= r <= end,
            path@.take(r as int) == without_empty_end(path@.take(end as int), lead as nat),
        decreases r,
    {
        let tail = count_tail(path, lead, r);
        if tail == 0 || (tail == 1 && path[r - 1] == 0x2e) {
            let shorter = end_before_tail(lead, r, tail);
            assert(without_tail(path@.take(r as int), lead as nat) =~= path@.take(shorter as int));
            r = shorter;
        } else {
            break;
        }
    }
    r
}

/// The directory that a path leads to and the name that it has there.
pub fn split_place(path: &[u8]) -> (r: Option<(Vec<u8>, Vec<u8>)>)
    ensures
        match r {
            Some((dir, name)) => place_of(path@) == Some((dir@, name@)),
            None => place_of(path@) is None,
        },
{
    let lead: usize = if path.len() > 0 && (path[0] == 0x2f || (path[0] == 0x2e && (path.len() == 1
        || path[1] == 0x2f))) {
        1
    } else {
        0
    };
    assert(path@.take(path.len() as int) =~= path@);
    let end = end_of_names(path, lead, path.len());
    let ghost whole = path@.take(end as int);
    if end <= lead {
        return None;
    }
    let tail = count_tail(path, lead, end);
    let name = slice_subrange(path, end - tail, end);
    assert(name@ =~= whole.skip(whole.len() - tail));
    if name.len() == 2 && name[0] == 0x2e && name[1] == 0x2e {
        assert(name@ =~= seq![0x2eu8, 0x2eu8]);
        return None;
    }
    let before = end_before_tail(lead, end, tail);
    assert(without_tail(whole, lead as nat) =~= path@.take(before as int));
    let dir_end = end_of_names(path, lead, before);
    let dir = slice_subrange(path, 0, dir_end);
    assert(dir@ =~= path@.take(dir_end as int));
    Some((copy_bytes(dir), copy_bytes(name)))
}

/// The ending that marks the executable behind a wrapper.
pub open spec fn real_suffix() -> Seq<u8> {
    ascii_bytes(".real"@)
}

/// Where the executable behind a wrapper is kept.
pub fn real_path_for(path: &[u8]) -> (r: Vec<u8>)
    ensures
        r@ == path@ + real_suffix(),
{
    proof {
        reveal_strlit(".real");
    }
    let suffix: [u8; 5] = [0x2e, 0x72, 0x65, 0x61, 0x6c];
    assert(suffix@ =~= real_suffix());
    concat_bytes(path, &suffix)
}

/// The directory for shims below a home directory.
pub open spec fn bin_dir_below(home: Seq<u8>) -> Seq<u8> {
    joined(home, ascii_bytes(".local/bin"@))
}

/// There is no home directory.
#[derive(Clone, Copy, Debug, PartialEq, Eq, Structural)]
pub struct HomeNotSet;

impl HomeNotSet {
    /// The words for the fault.
    pub fn message(&self) -> (r: String)
        ensures
            r@ == "HOME is not set"@,
    {
        "HOME is not set".to_string()
    }
}

/// The bytes that an optional path holds.
pub open spec fn path_bytes(p: Option<Vec<u8>>) -> Option<Seq<u8>> {
    match p {
        Some(p) => Some(p@),
        None => None,
    }
}

/// The directory for shims below the home directory.
pub fn default_bin_dir(home: &Option<Vec<u8>>) -> (r: Result<Vec<u8>, HomeNotSet>)
    ensures
        match r {
            Ok(dir) => path_bytes(*home) matches Some(h) && dir@ == bin_dir_below(h),
            Err(_) => *home is None,
        },
{
    match home {
        Some(home) => {
            proof {
                reveal_strlit(".local/bin");
            }
            let below: [u8; 10] = [
                0x2e,
                0x6c,
                0x6f,
                0x63,
                0x61,
                0x6c,
                0x2f,
                0x62,
                0x69,
                0x6e,
            ];
            assert(below@ =~= ascii_bytes(".local/bin"@));
            Ok(join(home.as_slice(), &below))
        },
        None => Err(HomeNotSet),
    }
}

} // verus!
