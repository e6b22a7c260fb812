//! The digest registry: the last built content digest of each image,
//! which decides whether a build can be skipped, and its persisted text form.

use vstd::prelude::*;

use crate::string_map::{pair_view, StringMap};
use crate::text::{find_char, index_of, index_of_from, lemma_index_of_from_bounds};

verus! {

/// The name of the file in which the registry is persisted. A build context
/// never includes a file of this name.
pub const DIGESTS_FILE_NAME: &'static str = ".digests";

/// The characters of the registry file's name.
pub open spec fn digests_file_name() -> Seq<char> {
    seq!['.', 'd', 'i', 'g', 'e', 's', 't', 's']
}

/// The record of the last built digest of each image, by image name.
pub struct ImageRegistry {
    images: StringMap,
}

/// Drops the carriage return of a line that a `\r\n` ended.
pub open spec fn strip_cr(line: Seq<char>) -> Seq<char> {
    if line.len() > 0 && line.last() == '\r' {
        line.drop_last()
    } else {
        line
    }
}

/// The lines of `t[start..]`, scanning from `i`: a line ends at `\n` (which,
/// with a `\r` before it, is dropped); the last line needs no `\n`.
pub open spec fn lines_from(t: Seq<char>, start: int, i: int) -> Seq<Seq<char>>
    decreases t.len() - i,
{
    if i >= t.len() {
        if start < t.len() {
            seq![t.subrange(start, t.len() as int)]
        } else {
            seq![]
        }
    } else if t[i] == '\n' {
        seq![strip_cr(t.subrange(start, i))] + lines_from(t, i + 1, i + 1)
    } else {
        lines_from(t, start, i + 1)
    }
}

pub open spec fn lines_of(t: Seq<char>) -> Seq<Seq<char>> {
    lines_from(t, 0, 0)
}

/// A line `name=digest`: the name runs to the first `=`, the digest from there
/// to the next `=` or the end. A line without `=` holds no record.
pub open spec fn parse_line(line: Seq<char>) -> Option<(Seq<char>, Seq<char>)> {
    let p = index_of(line, '=');
    if p >= line.len() {
        None
    } else {
        let q = index_of_from(line, '=', p + 1);
        Some((line.take(p), line.subrange(p + 1, q)))
    }
}

/// The registry that a sequence of lines describes; a later line for a name wins.
pub open spec fn lines_map(ls: Seq<Seq<char>>) -> Map<Seq<char>, Seq<char>>
    decreases ls.len(),
{
    if ls.len() == 0 {
        Map::empty()
    } else {
        let m = lines_map(ls.drop_last());
        match parse_line(ls.last()) {
            Some((k, v)) => m.insert(k, v),
            None => m,
        }
    }
}

/// The registry that a persisted file holds.
pub open spec fn parse_registry(t: Seq<char>) -> Map<Seq<char>, Seq<char>> {
    lines_map(lines_of(t))
}

/// The persisted form of a sequence of records: one `name=digest` line each.
pub open spec fn render_pairs(s: Seq<(Seq<char>, Seq<char>)>) -> Seq<char>
    decreases s.len(),
{
    if s.len() == 0 {
        seq![]
    } else {
        render_pairs(s.drop_last()) + s.last().0 + seq!['='] + s.last().1 + seq!['\n']
    }
}

impl View for ImageRegistry {
    type V = Map<Seq<char>, Seq<char>>;

    closed spec fn view(&self) -> Map<Seq<char>, Seq<char>> {
        self.images@
    }
}

impl ImageRegistry {
    /// Each image name is recorded at most once.
    pub closed spec fn wf(&self) -> bool {
        self.images.wf()
    }

    /// The records in the order in which they are persisted.
    pub closed spec fn records(&self) -> Seq<(Seq<char>, Seq<char>)> {
        self.images.entries@.map_values(|p: (String, String)| pair_view(p))
    }

    /// An empty registry: no prior build is known.
    pub fn empty() -> (r: ImageRegistry)
        ensures
            r.wf(),
            r@ == Map::<Seq<char>, Seq<char>>::empty(),
    {
        ImageRegistry { images: StringMap::new() }
    }

    /// Records `digest` as the last built digest of `image_name`, replacing
    /// any earlier record of that name.
    pub fn push(&mut self, image_name: String, container_file_digest: String)
        requires
            old(self).wf(),
        ensures
            final(self).wf(),
            final(self)@ == old(self)@.insert(image_name@, container_file_digest@),
    {
        self.images.insert(image_name, container_file_digest);
    }

    /// Whether an image must be built: true unless the record of `image_name`
    /// is exactly `digest`.
    pub fn is_build_needed(&self, image_name: &String, digest: &String) -> (r: bool)
        requires
            self.wf(),
        ensures
            r == build_needed(self@, image_name@, digest@),
    {
        match self.images.position(image_name) {
            Some(i) => {
                proof {
                    let e = self.images.entries@;
                    let k = image_name@;
                    let j = choose|j: int| 0 <= j < e.len() && (#[trigger] e[j]).0@ == k;
                    assert(j == i);
                }
                self.images.entries[i].1 != *digest
            },
            None => true,
        }
    }
    /// The registry as loaded at start-up from the persisted text, if the
    /// file could be read; a missing or unreadable file gives an empty
    /// registry, as on a first run.
    pub fn new(persisted: Option<&str>) -> (r: ImageRegistry)
        ensures
            r.wf(),
            r@ == match persisted {
                Some(text) => parse_registry(text@),
                None => Map::empty(),
            },
    {
        match persisted {
            Some(text) => Self::from_text(text),
            None => Self::empty(),
        }
    }

    /// Applies one persisted line: a record replaces any earlier one of its name.
    fn push_line(&mut self, line: &str)
        requires
            old(self).wf(),
        ensures
            final(self).wf(),
            final(self)@ == match parse_line(line@) {
                Some((k, v)) => old(self)@.insert(k, v),
                None => old(self)@,
            },
    {
        let n = line.unicode_len();
        let p = find_char(line, n, '=', 0);
        proof {
            lemma_index_of_from_bounds(line@, '=', 0);
        }
        if p < n {
            let q = find_char(line, n, '=', p + 1);
            proof {
                lemma_index_of_from_bounds(line@, '=', p + 1);
            }
            let name = String::from_str(line.substring_char(0, p));
            let digest = String::from_str(line.substring_char(p + 1, q));
            proof {
                assert(name@ =~= line@.take(p as int));
            }
            self.push(name, digest);
        }
    }

    /// Reads a registry from its persisted text: one `name=digest` record per
    /// line; a later record of a name wins; a line without `=` is skipped.
    pub fn from_text(text: &str) -> (r: ImageRegistry)
        ensures
            r.wf(),
            r@ == parse_registry(text@),
    {
        let ghost t = text@;
        let len = text.unicode_len();
        let mut r = Self::empty();
        let mut start: usize = 0;
        let mut i: usize = 0;
        let ghost mut done: Seq<Seq<char>> = seq![];
        while i < len
            invariant
                len == t.len(),
                t == text@,
                start <= i <= len,
                r.wf(),
                r@ == lines_map(done),
                lines_of(t) == done + lines_from(t, start as int, i as int),
            decreases len - i,
        {
            if text.get_char(i) == '\n' {
                let mut end = i;
                if end > start && text.get_char(end - 1) == '\r' {
                    end = end - 1;
                }
                let line = text.substring_char(start, end);
                let ghost x = strip_cr(t.subrange(start as int, i as int));
                assert(line@ =~= x);
                r.push_line(line);
                proof {
                    assert(done + lines_from(t, start as int, i as int) =~= done.push(x) + lines_from(t, i + 1, i + 1));
                    assert(done.push(x).drop_last() =~= done);
                    done = done.push(x);
                }
                start = i + 1;
            }
            i = i + 1;
        }
        if start < len {
            let line = text.substring_char(start, len);
            let ghost x = t.subrange(start as int, len as int);
            r.push_line(line);
            proof {
                assert(done.push(x).drop_last() =~= done);
                assert(lines_of(t) =~= done.push(x));
                done = done.push(x);
            }
        } else {
            assert(lines_of(t) =~= done);
        }
        r
    }

    /// The persisted text: one `name=digest` line per record, each record
    /// of the registry once.
    pub fn to_text(&self) -> (r: String)
        requires
            self.wf(),
        ensures
            r@ == render_pairs(self.records()),
            forall|i: int|
                0 <= i < self.records().len() ==> self@.contains_key((#[trigger] self.records()[i]).0) && self@[self.records()[i].0]
                    == self.records()[i].1,
            forall|k: Seq<char>| #[trigger] self@.contains_key(k) ==> exists|i: int| 0 <= i < self.records().len() && (#[trigger] self.records()[i]).0 == k,
            forall|i: int, j: int|
                0 <= i < self.records().len() && 0 <= j < self.records().len() && i != j ==> (#[trigger] self.records()[i]).0 != (#[trigger] self.records()[j]).0,
    {
        proof {
            let e = self.images.entries@;
            let rs = self.records();
            assert forall|i: int| 0 <= i < rs.len() implies self@.contains_key((#[trigger] rs[i]).0) && self@[rs[i].0] == rs[i].1 by {
                assert(rs[i] == pair_view(e[i]));
                let k = e[i].0@;
                let j = choose|j: int| 0 <= j < e.len() && (#[trigger] e[j]).0@ == k;
                assert(j == i);
            }
            assert forall|k: Seq<char>| #[trigger] self@.contains_key(k) implies exists|i: int| 0 <= i < rs.len() && (#[trigger] rs[i]).0 == k by {
                let j = choose|j: int| 0 <= j < e.len() && (#[trigger] e[j]).0@ == k;
                assert(rs[j] == pair_view(e[j]));
            }
            assert forall|i: int, j: int| 0 <= i < rs.len() && 0 <= j < rs.len() && i != j implies (#[trigger] rs[i]).0 != (#[trigger] rs[j]).0 by {
                assert(rs[i] == pair_view(e[i]) && rs[j] == pair_view(e[j]));
            }
        }
        let mut out = String::new();
        let mut i: usize = 0;
        proof {
            reveal_strlit("=");
            reveal_strlit("\n");
        }
        while i < self.images.entries.len()
            invariant
                i <= self.images.entries@.len(),
                out@ == render_pairs(self.records().take(i as int)),
            decreases self.images.entries.len() - i,
        {
            let ghost before = out@;
            out.append(self.images.entries[i].0.as_str());
            out.append("=");
            out.append(self.images.entries[i].1.as_str());
            out.append("\n");
            proof {
                reveal_strlit("=");
                reveal_strlit("\n");
                let rs = self.records();
                assert(rs[i as int] == pair_view(self.images.entries@[i as int]));
                assert(rs.take(i + 1).drop_last() =~= rs.take(i as int));
                assert(rs.take(i + 1).last() == rs[i as int]);
                assert(out@ =~= before + rs[i as int].0 + seq!['='] + rs[i as int].1 + seq!['\n']);
            }
            i = i + 1;
        }
        assert(self.records().take(self.images.entries@.len() as int) =~= self.records());
        out
    }
}


/// A build is needed unless the record of `name` is exactly `digest`.
pub open spec fn build_needed(m: Map<Seq<char>, Seq<char>>, name: Seq<char>, digest: Seq<char>) -> bool {
    !(m.contains_key(name) && m[name] == digest)
}

/// The registry after the pushes `ps`, in order, onto `m`.
pub open spec fn after_pushes(m: Map<Seq<char>, Seq<char>>, ps: Seq<(Seq<char>, Seq<char>)>) -> Map<Seq<char>, Seq<char>>
    decreases ps.len(),
{
    if ps.len() == 0 {
        m
    } else {
        after_pushes(m, ps.drop_last()).insert(ps.last().0, ps.last().1)
    }
}

/// The most recent push of `name` among `ps` was of `digest`.
pub open spec fn last_push_is(ps: Seq<(Seq<char>, Seq<char>)>, name: Seq<char>, digest: Seq<char>) -> bool {
    exists|i: int|
        0 <= i < ps.len() && #[trigger] ps[i] == (name, digest) && forall|j: int| i < j < ps.len() ==> (#[trigger] ps[j]).0 != name
}

/// Starting from an empty registry, no build of `name` at `digest` is needed
/// exactly when the most recent push of `name` was of that same digest; a
/// name never pushed always needs a build.
pub proof fn lemma_build_needed_after_pushes(ps: Seq<(Seq<char>, Seq<char>)>, name: Seq<char>, digest: Seq<char>)
    ensures
        build_needed(after_pushes(Map::empty(), ps), name, digest) == !last_push_is(ps, name, digest),
    decreases ps.len(),
{
    if ps.len() > 0 {
        let init = ps.drop_last();
        lemma_build_needed_after_pushes(init, name, digest);
        let n = ps.len() - 1;
        if ps[n].0 == name {
            if ps[n].1 == digest {
                assert(ps[n] == (name, digest));
            } else if last_push_is(ps, name, digest) {
                let i = choose|i: int|
                    0 <= i < ps.len() && #[trigger] ps[i] == (name, digest) && forall|j: int| i < j < ps.len() ==> (#[trigger] ps[j]).0 != name;
                assert(i != n);
            }
        } else {
            if last_push_is(ps, name, digest) {
                let i = choose|i: int|
                    0 <= i < ps.len() && #[trigger] ps[i] == (name, digest) && forall|j: int| i < j < ps.len() ==> (#[trigger] ps[j]).0 != name;
                assert(init[i] == ps[i]);
                assert forall|j: int| i < j < init.len() implies (#[trigger] init[j]).0 != name by {
                    assert(init[j] == ps[j]);
                }
            }
            if last_push_is(init, name, digest) {
                let i = choose|i: int|
                    0 <= i < init.len() && #[trigger] init[i] == (name, digest) && forall|j: int| i < j < init.len() ==> (#[trigger] init[j]).0 != name;
                assert(init[i] == ps[i]);
                assert forall|j: int| i < j < ps.len() implies (#[trigger] ps[j]).0 != name by {
                    if j < n {
                        assert(init[j] == ps[j]);
                    }
                }
            }
        }
    }
}

/// A name or digest that the line format can carry: no `=`, no line break.
pub open spec fn plain_field(s: Seq<char>) -> bool {
    forall|i: int| 0 <= i < s.len() ==> (#[trigger] s[i]) != '=' && s[i] != '\n' && s[i] != '\r'
}

pub open spec fn record_line(p: (Seq<char>, Seq<char>)) -> Seq<char> {
    p.0 + seq!['='] + p.1
}

proof fn lemma_lines_to_break(t: Seq<char>, start: int, i: int, e: int)
    requires
        0 <= start <= i <= e < t.len(),
        t[e] == '\n',
        forall|j: int| i <= j < e ==> t[j] != '\n',
    ensures
        lines_from(t, start, i) == seq![strip_cr(t.subrange(start, e))] + lines_from(t, e + 1, e + 1),
    decreases e - i,
{
    if i < e {
        lemma_lines_to_break(t, start, i + 1, e);
    }
}

proof fn lemma_lines_prefix(u: Seq<char>, v: Seq<char>, start: int, i: int)
    requires
        0 <= start <= i <= u.len(),
        u.len() == 0 || u.last() == '\n',
        forall|j: int| start <= j < i ==> u[j] != '\n',
    ensures
        lines_from(u + v, start, i) == lines_from(u, start, i) + lines_from(u + v, u.len() as int, u.len() as int),
    decreases u.len() - i,
{
    let t = u + v;
    let m = u.len() as int;
    if i == m {
        if start < m {
            assert(u[m - 1] == '\n');
        }
        assert(lines_from(u, start, i) =~= seq![]);
        assert(lines_from(u, start, i) + lines_from(t, m, m) =~= lines_from(t, m, m));
    } else {
        assert(t[i] == u[i]);
        if u[i] == '\n' {
            lemma_lines_prefix(u, v, i + 1, i + 1);
            assert(t.subrange(start, i) =~= u.subrange(start, i));
            assert(lines_from(t, start, i) =~= seq![strip_cr(u.subrange(start, i))] + lines_from(t, i + 1, i + 1));
            assert(lines_from(u, start, i) =~= seq![strip_cr(u.subrange(start, i))] + lines_from(u, i + 1, i + 1));
        } else {
            lemma_lines_prefix(u, v, start, i + 1);
        }
    }
}

proof fn lemma_render_lines(rs: Seq<(Seq<char>, Seq<char>)>)
    requires
        forall|i: int| 0 <= i < rs.len() ==> plain_field((#[trigger] rs[i]).0) && plain_field(rs[i].1),
    ensures
        lines_of(render_pairs(rs)) == rs.map_values(|p: (Seq<char>, Seq<char>)| record_line(p)),
        render_pairs(rs).len() == 0 || render_pairs(rs).last() == '\n',
    decreases rs.len(),
{
    if rs.len() == 0 {
        assert(lines_of(render_pairs(rs)) =~= seq![]);
        assert(rs.map_values(|p: (Seq<char>, Seq<char>)| record_line(p)) =~= seq![]);
    } else {
        let init = rs.drop_last();
        assert forall|i: int| 0 <= i < init.len() implies plain_field((#[trigger] init[i]).0) && plain_field(init[i].1) by {
            assert(init[i] == rs[i]);
        }
        lemma_render_lines(init);
        let u = render_pairs(init);
        let l = record_line(rs.last());
        let v = l + seq!['\n'];
        let t = render_pairs(rs);
        assert(t =~= u + v);
        let m = u.len() as int;
        let e = t.len() - 1;
        let last = rs[rs.len() - 1];
        assert(plain_field(last.0) && plain_field(last.1));
        assert forall|j: int| m <= j < e implies t[j] != '\n' by {
            assert(t[j] == l[j - m]);
            if j - m < last.0.len() {
                assert(l[j - m] == last.0[j - m]);
            } else if j - m > last.0.len() {
                assert(l[j - m] == last.1[j - m - last.0.len() - 1]);
            }
        }
        lemma_lines_to_break(t, m, m, e);
        assert(t.subrange(m, e) =~= l);
        assert(strip_cr(l) == l) by {
            if l.len() > 0 && l.last() == '\r' {
                if last.1.len() > 0 {
                    assert(l.last() == last.1[last.1.len() - 1]);
                }
            }
        }
        assert(lines_from(t, e + 1, e + 1) =~= seq![]);
        lemma_lines_prefix(u, v, 0, 0);
        assert(lines_of(t) =~= lines_of(u) + seq![l]);
        assert(rs.map_values(|p: (Seq<char>, Seq<char>)| record_line(p)) =~= init.map_values(
            |p: (Seq<char>, Seq<char>)| record_line(p),
        ).push(l));
    }
}

proof fn lemma_parse_record_line(p: (Seq<char>, Seq<char>))
    requires
        plain_field(p.0),
        plain_field(p.1),
    ensures
        parse_line(record_line(p)) == Some(p),
{
    let l = record_line(p);
    let n = p.0.len() as int;
    assert(l[n] == '=');
    assert forall|j: int| 0 <= j < n implies l[j] == p.0[j] by {}
    lemma_index_of_from_bounds(l, '=', 0);
    assert(index_of(l, '=') == n) by {
        if index_of(l, '=') < n {
            assert(l[index_of(l, '=')] == p.0[index_of(l, '=')]);
        }
    }
    lemma_index_of_from_bounds(l, '=', n + 1);
    assert(index_of_from(l, '=', n + 1) == l.len()) by {
        let q = index_of_from(l, '=', n + 1);
        if q < l.len() {
            assert(l[q] == p.1[q - n - 1]);
        }
    }
    assert(l.take(n) =~= p.0);
    assert(l.subrange(n + 1, l.len() as int) =~= p.1);
}

proof fn lemma_lines_map_records(rs: Seq<(Seq<char>, Seq<char>)>)
    requires
        forall|i: int| 0 <= i < rs.len() ==> plain_field((#[trigger] rs[i]).0) && plain_field(rs[i].1),
    ensures
        lines_map(rs.map_values(|p: (Seq<char>, Seq<char>)| record_line(p))) == after_pushes(Map::empty(), rs),
    decreases rs.len(),
{
    if rs.len() > 0 {
        let init = rs.drop_last();
        assert forall|i: int| 0 <= i < init.len() implies plain_field((#[trigger] init[i]).0) && plain_field(init[i].1) by {
            assert(init[i] == rs[i]);
        }
        lemma_lines_map_records(init);
        let ls = rs.map_values(|p: (Seq<char>, Seq<char>)| record_line(p));
        assert(ls.drop_last() =~= init.map_values(|p: (Seq<char>, Seq<char>)| record_line(p)));
        assert(plain_field(rs[rs.len() - 1].0) && plain_field(rs[rs.len() - 1].1));
        lemma_parse_record_line(rs.last());
    }
}

proof fn lemma_after_pushes_distinct(rs: Seq<(Seq<char>, Seq<char>)>)
    requires
        forall|i: int, j: int| 0 <= i < rs.len() && 0 <= j < rs.len() && i != j ==> (#[trigger] rs[i]).0 != (#[trigger] rs[j]).0,
    ensures
        forall|k: Seq<char>| #[trigger] after_pushes(Map::empty(), rs).contains_key(k) <==> exists|i: int| 0 <= i < rs.len() && (#[trigger] rs[i]).0 == k,
        forall|i: int| 0 <= i < rs.len() ==> after_pushes(Map::empty(), rs)[(#[trigger] rs[i]).0] == rs[i].1,
    decreases rs.len(),
{
    if rs.len() > 0 {
        let init = rs.drop_last();
        assert forall|i: int, j: int| 0 <= i < init.len() && 0 <= j < init.len() && i != j implies (#[trigger] init[i]).0 != (#[trigger] init[j]).0 by {
            assert(init[i] == rs[i] && init[j] == rs[j]);
        }
        lemma_after_pushes_distinct(init);
        let n = rs.len() - 1;
        assert(after_pushes(Map::empty(), rs) == after_pushes(Map::empty(), init).insert(rs[n].0, rs[n].1));
        assert forall|k: Seq<char>| #[trigger] after_pushes(Map::empty(), rs).contains_key(k) <==> exists|i: int| 0 <= i < rs.len() && (#[trigger] rs[i]).0 == k by {
            if after_pushes(Map::empty(), rs).contains_key(k) {
                if k == rs[n].0 {
                    assert(rs[n].0 == k);
                } else {
                    assert(after_pushes(Map::empty(), init).contains_key(k));
                    let i = choose|i: int| 0 <= i < init.len() && (#[trigger] init[i]).0 == k;
                    assert(rs[i] == init[i]);
                }
            }
            if exists|i: int| 0 <= i < rs.len() && (#[trigger] rs[i]).0 == k {
                let i = choose|i: int| 0 <= i < rs.len() && (#[trigger] rs[i]).0 == k;
                if i < n {
                    assert(init[i] == rs[i]);
                    assert(after_pushes(Map::empty(), init).contains_key(k));
                }
            }
        }
        assert forall|i: int| 0 <= i < rs.len() implies after_pushes(Map::empty(), rs)[(#[trigger] rs[i]).0] == rs[i].1 by {
            if i < n {
                assert(init[i] == rs[i]);
                assert(rs[i].0 != rs[n].0);
            }
        }
    }
}

impl ImageRegistry {
    /// Loading what `to_text` wrote gives back the same registry, when no
    /// name or digest holds `=` or a line break.
    pub proof fn lemma_persist_then_load(&self)
        requires
            self.wf(),
            forall|i: int| 0 <= i < self.records().len() ==> plain_field((#[trigger] self.records()[i]).0) && plain_field(self.records()[i].1),
        ensures
            parse_registry(render_pairs(self.records())) == self@,
    {
        let rs = self.records();
        let e = self.images.entries@;
        lemma_render_lines(rs);
        lemma_lines_map_records(rs);
        assert forall|i: int, j: int| 0 <= i < rs.len() && 0 <= j < rs.len() && i != j implies (#[trigger] rs[i]).0 != (#[trigger] rs[j]).0 by {
            assert(rs[i] == pair_view(e[i]) && rs[j] == pair_view(e[j]));
        }
        lemma_after_pushes_distinct(rs);
        let m = after_pushes(Map::empty(), rs);
        assert forall|k: Seq<char>| #[trigger] m.contains_key(k) <==> self@.contains_key(k) by {
            if m.contains_key(k) {
                let i = choose|i: int| 0 <= i < rs.len() && (#[trigger] rs[i]).0 == k;
                assert(rs[i] == pair_view(e[i]));
            }
            if self@.contains_key(k) {
                let j = choose|j: int| 0 <= j < e.len() && (#[trigger] e[j]).0@ == k;
                assert(rs[j] == pair_view(e[j]));
            }
        }
        assert forall|k: Seq<char>| #[trigger] m.contains_key(k) implies m[k] == self@[k] by {
            let i = choose|i: int| 0 <= i < rs.len() && (#[trigger] rs[i]).0 == k;
            assert(rs[i] == pair_view(e[i]));
            let j = choose|j: int| 0 <= j < e.len() && (#[trigger] e[j]).0@ == k;
            assert(rs[j] == pair_view(e[j]));
        }
        assert(m =~= self@);
    }
}

} // verus!
