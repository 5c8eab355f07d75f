//! The code emitter core: an indentation-aware text sink, a scoped
//! variable-name allocator, an intrinsic registry and the instruction
//! context that carries the emitter's input stack of script expressions.

use vstd::prelude::*;

use crate::shared_context::SharedIntrinsic;
use crate::strutil::{clean_str, dec_string_usize, is_simple_ident, spec_dec, spec_simple_ident};

verus! {

/// `n` tab characters.
pub open spec fn tabs(n: nat) -> Seq<char>
    decreases n,
{
    if n == 0 {
        Seq::empty()
    } else {
        tabs((n - 1) as nat) + seq!['\t']
    }
}

/// A text sink that prefixes every line it starts with one tab per open
/// indentation level.
pub struct IndentedWriter {
    pub out: String,
    pub indent: usize,
    pub new_line: bool,
}

impl IndentedWriter {
    pub fn new() -> (r: Self)
        ensures
            r.out@ == Seq::<char>::empty(),
            r.indent == 0,
            r.new_line == true,
    {
        IndentedWriter { out: String::new(), indent: 0, new_line: true }
    }

    pub fn up(&mut self)
        requires
            old(self).indent < usize::MAX,
        ensures
            final(self).indent == old(self).indent + 1,
            final(self).out == old(self).out,
            final(self).new_line == old(self).new_line,
    {
        self.indent = self.indent + 1;
    }

    pub fn down(&mut self)
        requires
            old(self).indent >= 1,
        ensures
            final(self).indent == old(self).indent - 1,
            final(self).out == old(self).out,
            final(self).new_line == old(self).new_line,
    {
        self.indent = self.indent - 1;
    }

    /// Writes the pending indentation if a line is about to start.
    fn start_line(&mut self)
        ensures
            final(self).out@ == old(self).out@ + if old(self).new_line {
                tabs(old(self).indent as nat)
            } else {
                Seq::<char>::empty()
            },
            final(self).new_line == false,
            final(self).indent == old(self).indent,
    {
        let ghost pre = self.out@;
        if self.new_line {
            self.new_line = false;
            let mut i: usize = 0;
            while i < self.indent
                invariant
                    i <= self.indent,
                    self.indent == old(self).indent,
                    self.new_line == false,
                    self.out@ == pre + tabs(i as nat),
                decreases self.indent - i,
            {
                self.out.append("\t");
                i = i + 1;
                proof {
                    reveal_strlit("\t");
                    assert(self.out@ =~= pre + tabs(i as nat));
                }
            }
        } else {
            proof {
                assert(self.out@ =~= pre + Seq::<char>::empty());
            }
        }
    }

    /// Appends `s` to the current line; `s` must not contain a newline.
    pub fn write(&mut self, s: &str)
        requires
            forall|i: int| 0 <= i < s@.len() ==> s@[i] != '\n',
        ensures
            final(self).out@ == old(self).out@ + if old(self).new_line && s@.len() > 0 {
                tabs(old(self).indent as nat)
            } else {
                Seq::<char>::empty()
            } + s@,
            final(self).new_line == (old(self).new_line && s@.len() == 0),
            final(self).indent == old(self).indent,
    {
        if s.unicode_len() > 0 {
            self.start_line();
            self.out.append(s);
        } else {
            proof {
                assert(final(self).out@ =~= old(self).out@ + Seq::<char>::empty() + s@);
            }
        }
    }

    /// Appends `s` and closes the line; `s` must not contain a newline.
    pub fn writeln(&mut self, s: &str)
        requires
            forall|i: int| 0 <= i < s@.len() ==> s@[i] != '\n',
        ensures
            final(self).out@ == old(self).out@ + if old(self).new_line {
                tabs(old(self).indent as nat)
            } else {
                Seq::<char>::empty()
            } + s@ + seq!['\n'],
            final(self).new_line == true,
            final(self).indent == old(self).indent,
    {
        self.start_line();
        self.out.append(s);
        self.out.append("\n");
        self.new_line = true;
        proof {
            reveal_strlit("\n");
            assert(final(self).out@ =~= old(self).out@ + if old(self).new_line {
                tabs(old(self).indent as nat)
            } else {
                Seq::<char>::empty()
            } + s@ + seq!['\n']);
        }
    }
}

/// `n + 1`, stopping at the largest machine integer.
pub open spec fn sat_inc(n: usize) -> usize {
    if n == usize::MAX {
        n
    } else {
        (n + 1) as usize
    }
}

/// One scope of the name allocator, as (stem, next index) pairs.
pub open spec fn scope_view(s: Seq<(String, usize)>) -> Seq<(Seq<char>, usize)> {
    s.map_values(|p: (String, usize)| (p.0@, p.1))
}

/// The index the allocator will hand out next for `name`: the first entry
/// for that stem, or zero if the scope has none.
pub open spec fn spec_count(sc: Seq<(Seq<char>, usize)>, name: Seq<char>) -> usize
    decreases sc.len(),
{
    if sc.len() == 0 {
        0
    } else if sc[0].0 == name {
        sc[0].1
    } else {
        spec_count(sc.drop_first(), name)
    }
}

/// The scope after handing out one more index for `name`.
pub open spec fn spec_bump(sc: Seq<(Seq<char>, usize)>, name: Seq<char>) -> Seq<
    (Seq<char>, usize),
>
    decreases sc.len(),
{
    if sc.len() == 0 {
        seq![(name, 1usize)]
    } else if sc[0].0 == name {
        seq![(sc[0].0, sat_inc(sc[0].1))] + sc.drop_first()
    } else {
        seq![sc[0]] + spec_bump(sc.drop_first(), name)
    }
}

/// The scope after handing out `n` more indices for `name`.
pub open spec fn bump_n(sc: Seq<(Seq<char>, usize)>, name: Seq<char>, n: nat) -> Seq<
    (Seq<char>, usize),
>
    decreases n,
{
    if n == 0 {
        sc
    } else {
        bump_n(spec_bump(sc, name), name, (n - 1) as nat)
    }
}

/// The fresh name built from a stem and an index.
pub open spec fn fresh_name(name: Seq<char>, n: usize) -> Seq<char> {
    name + seq!['_'] + spec_dec(n as nat)
}

/// The names handed out by `n` successive requests for `name`.
pub open spec fn names_n(sc: Seq<(Seq<char>, usize)>, name: Seq<char>, n: nat) -> Seq<Seq<char>>
    decreases n,
{
    if n == 0 {
        Seq::empty()
    } else {
        seq![fresh_name(name, spec_count(sc, name))] + names_n(
            spec_bump(sc, name),
            name,
            (n - 1) as nat,
        )
    }
}

/// The scoped variable-name allocator: a stack of maps from name stem to the
/// next free index.
pub struct Vars {
    pub used_names: Vec<Vec<(String, usize)>>,
}

impl Vars {
    /// All scopes, innermost last.
    pub open spec fn scopes(self) -> Seq<Seq<(Seq<char>, usize)>> {
        self.used_names@.map_values(|v: Vec<(String, usize)>| scope_view(v@))
    }

    pub open spec fn wf(self) -> bool {
        self.used_names@.len() >= 1
    }

    /// The innermost scope.
    pub open spec fn top(self) -> Seq<(Seq<char>, usize)> {
        self.scopes().last()
    }

    pub fn new() -> (r: Self)
        ensures
            r.wf(),
            r.scopes() =~= seq![Seq::<(Seq<char>, usize)>::empty()],
    {
        let mut used_names: Vec<Vec<(String, usize)>> = Vec::new();
        used_names.push(Vec::new());
        let r = Vars { used_names };
        proof {
            assert(r.used_names@.len() == 1);
            assert(r.scopes().len() == 1);
            assert(r.scopes()[0] == scope_view(r.used_names@[0]@));
            assert(r.used_names@[0]@.len() == 0);
            assert(r.scopes()[0].len() == 0);
            assert(r.scopes()[0] =~= Seq::<(Seq<char>, usize)>::empty());
            assert(r.scopes() =~~= seq![Seq::<(Seq<char>, usize)>::empty()]);
            assert(r.scopes() =~= seq![Seq::<(Seq<char>, usize)>::empty()]);
        }
        r
    }

    /// Returns `{name}_{n}` for the next free index `n` of this stem, and
    /// claims the index in the innermost scope.
    pub fn next(&mut self, name: &str) -> (r: String)
        requires
            old(self).wf(),
        ensures
            final(self).wf(),
            final(self).scopes().len() == old(self).scopes().len(),
            forall|k: int|
                0 <= k < old(self).scopes().len() - 1 ==> final(self).scopes()[k] == old(
                    self,
                ).scopes()[k],
            final(self).top() == spec_bump(old(self).top(), name@),
            r@ == fresh_name(name@, spec_count(old(self).top(), name@)),
    {
        let name_s = String::from_str(name);
        let top0 = match self.used_names.pop() {
            Some(t) => t,
            None => vstd::pervasive::unreached(),
        };
        let ghost gt = scope_view(top0@);
        let len = top0.len();
        let mut i: usize = 0;
        let mut found = len;
        while i < len
            invariant
                0 <= i <= len,
                len == top0@.len(),
                name_s@ == name@,
                found <= len,
                found < len ==> i == len,
                found == len ==> forall|k: int| 0 <= k < i ==> (#[trigger] top0@[k]).0@ != name@,
                found < len ==> top0@[found as int].0@ == name@ && forall|k: int|
                    0 <= k < found ==> (#[trigger] top0@[k]).0@ != name@,
            decreases len - i,
        {
            if top0[i].0.eq(&name_s) {
                found = i;
                i = len;
            } else {
                i = i + 1;
            }
        }
        let mut top = top0;
        proof {
            assert forall|k: int| 0 <= k < gt.len() implies #[trigger] gt[k] == (
                top@[k].0@,
                top@[k].1,
            ) by {}
            lemma_bump_shape(gt, name@, found as int);
        }
        let n: usize;
        if found < len {
            n = top[found].1;
            let bumped = if n < usize::MAX {
                n + 1
            } else {
                n
            };
            top.set(found, (String::from_str(name), bumped));
            proof {
                assert forall|k: int| 0 <= k < top@.len() implies #[trigger] scope_view(top@)[k]
                    == spec_bump(gt, name@)[k] by {
                    assert(scope_view(top@)[k] == (top@[k].0@, top@[k].1));
                }
                assert(scope_view(top@) =~~= spec_bump(gt, name@));
            }
        } else {
            n = 0;
            top.push((String::from_str(name), 1));
            proof {
                assert forall|k: int| 0 <= k < top@.len() implies #[trigger] scope_view(top@)[k]
                    == spec_bump(gt, name@)[k] by {
                    assert(scope_view(top@)[k] == (top@[k].0@, top@[k].1));
                }
                assert(scope_view(top@) =~~= spec_bump(gt, name@));
            }
        }
        self.used_names.push(top);
        let mut r = String::from_str(name);
        r.append("_");
        let d = dec_string_usize(n);
        r.append(d.as_str());
        proof {
            reveal_strlit("_");
            assert(r@ =~= fresh_name(name@, n));
            assert(final(self).scopes() =~~= old(self).scopes().drop_last().push(
                spec_bump(gt, name@),
            ));
        }
        r
    }

    /// Returns `count` fresh names for the stem, in the order handed out.
    pub fn many(&mut self, count: usize, name: &str) -> (r: Vec<String>)
        requires
            old(self).wf(),
        ensures
            final(self).wf(),
            final(self).scopes().len() == old(self).scopes().len(),
            forall|k: int|
                0 <= k < old(self).scopes().len() - 1 ==> final(self).scopes()[k] == old(
                    self,
                ).scopes()[k],
            final(self).top() == bump_n(old(self).top(), name@, count as nat),
            r.deep_view() == names_n(old(self).top(), name@, count as nat),
        decreases count,
    {
        if count == 0 {
            let r = Vec::new();
            proof {
                assert(r.deep_view() =~= names_n(old(self).top(), name@, 0));
            }
            r
        } else {
            let first = self.next(name);
            let mut r = Vec::new();
            r.push(first);
            let mut rest = self.many(count - 1, name);
            r.append(&mut rest);
            proof {
                assert(r.deep_view() =~= names_n(old(self).top(), name@, count as nat));
            }
            r
        }
    }

    /// Opens a nested scope that starts from a copy of the innermost one.
    pub fn scope(&mut self)
        requires
            old(self).wf(),
        ensures
            final(self).wf(),
            final(self).scopes() == old(self).scopes().push(old(self).top()),
    {
        let top = match self.used_names.pop() {
            Some(t) => t,
            None => vstd::pervasive::unreached(),
        };
        let mut copy: Vec<(String, usize)> = Vec::new();
        let len = top.len();
        let mut i: usize = 0;
        while i < len
            invariant
                0 <= i <= len,
                len == top@.len(),
                copy@.len() == i,
                forall|k: int|
                    0 <= k < i ==> (#[trigger] copy@[k]).0@ == top@[k].0@ && copy@[k].1
                        == top@[k].1,
            decreases len - i,
        {
            let name = top[i].0.clone();
            let idx = top[i].1;
            copy.push((name, idx));
            i = i + 1;
        }
        proof {
            assert(scope_view(copy@) =~~= scope_view(top@));
        }
        self.used_names.push(top);
        self.used_names.push(copy);
        proof {
            assert(scope_view(top@).take(len as int) =~~= scope_view(top@));
            assert(final(self).scopes() =~~= old(self).scopes().push(old(self).top()));
        }
    }

    /// Closes the innermost scope; the outermost one never closes.
    pub fn unscope(&mut self)
        requires
            old(self).wf(),
            old(self).scopes().len() >= 2,
        ensures
            final(self).wf(),
            final(self).scopes() == old(self).scopes().drop_last(),
    {
        let _ = self.used_names.pop();
        proof {
            assert(final(self).scopes() =~~= old(self).scopes().drop_last());
        }
    }
}

/// `spec_bump` rewrites the first entry for the stem in place, or appends a
/// fresh entry when the scope has none.
proof fn lemma_bump_shape(sc: Seq<(Seq<char>, usize)>, name: Seq<char>, found: int)
    requires
        0 <= found <= sc.len(),
        forall|k: int| 0 <= k < found ==> sc[k].0 != name,
        found < sc.len() ==> sc[found].0 == name,
    ensures
        found < sc.len() ==> spec_bump(sc, name) =~= sc.update(
            found,
            (sc[found].0, sat_inc(sc[found].1)),
        ) && spec_count(sc, name) == sc[found].1,
        found == sc.len() ==> spec_bump(sc, name) =~= sc.push((name, 1usize)) && spec_count(
            sc,
            name,
        ) == 0,
    decreases sc.len(),
{
    if sc.len() > 0 {
        if sc[0].0 == name {
            assert(found == 0);
            assert(spec_bump(sc, name) =~= sc.update(0, (sc[0].0, sat_inc(sc[0].1))));
        } else {
            assert(found >= 1);
            lemma_bump_shape(sc.drop_first(), name, found - 1);
            if found < sc.len() {
                assert(spec_bump(sc, name) =~= sc.update(
                    found,
                    (sc[found].0, sat_inc(sc[found].1)),
                ));
            } else {
                assert(spec_bump(sc, name) =~= sc.push((name, 1usize)));
            }
        }
    }
}

/// The export name of the first intrinsic called `name`, if any.
pub open spec fn find_intrinsic(list: Seq<(Seq<char>, Seq<char>)>, name: Seq<char>) -> Option<
    Seq<char>,
>
    decreases list.len(),
{
    if list.len() == 0 {
        Option::None
    } else if list[0].0 == name {
        Option::Some(list[0].1)
    } else {
        find_intrinsic(list.drop_first(), name)
    }
}

/// Every export symbol in the intrinsic list is free of newlines, so that
/// an emitted call never breaks its line.
pub open spec fn clean_exports(list: Seq<(Seq<char>, Seq<char>)>) -> bool {
    forall|k: int| 0 <= k < list.len() ==> clean_str((#[trigger] list[k]).1)
}

/// What `find_intrinsic` returns comes from the list, so it inherits the
/// list's cleanliness.
pub proof fn lemma_find_intrinsic_clean(list: Seq<(Seq<char>, Seq<char>)>, name: Seq<char>)
    requires
        clean_exports(list),
    ensures
        find_intrinsic(list, name) matches Option::Some(e) ==> clean_str(e),
    decreases list.len(),
{
    if list.len() > 0 && list[0].0 != name {
        assert forall|k: int| 0 <= k < list.drop_first().len() implies clean_str(
            (#[trigger] list.drop_first()[k]).1,
        ) by {
            assert(list.drop_first()[k] == list[k + 1]);
        }
        lemma_find_intrinsic_clean(list.drop_first(), name);
    }
}

/// Every name the allocator hands out for a newline-free stem is itself
/// newline-free.
pub proof fn lemma_names_n_clean(sc: Seq<(Seq<char>, usize)>, name: Seq<char>, n: nat)
    requires
        clean_str(name),
    ensures
        forall|k: int| 0 <= k < names_n(sc, name, n).len() ==> clean_str(
            #[trigger] names_n(sc, name, n)[k],
        ),
    decreases n,
{
    if n > 0 {
        lemma_fresh_name_ident_gen(name, spec_count(sc, name));
        lemma_names_n_clean(spec_bump(sc, name), name, (n - 1) as nat);
        assert forall|k: int| 0 <= k < names_n(sc, name, n).len() implies clean_str(
            #[trigger] names_n(sc, name, n)[k],
        ) by {
            if k > 0 {
                assert(names_n(sc, name, n)[k] == names_n(
                    spec_bump(sc, name),
                    name,
                    (n - 1) as nat,
                )[k - 1]);
            }
        }
    }
}

/// `n` requests hand out exactly `n` names.
pub proof fn lemma_names_n_len(sc: Seq<(Seq<char>, usize)>, name: Seq<char>, n: nat)
    ensures
        names_n(sc, name, n).len() == n,
    decreases n,
{
    if n > 0 {
        lemma_names_n_len(spec_bump(sc, name), name, (n - 1) as nat);
    }
}

/// `fresh_name` on a newline-free stem is newline-free.
pub proof fn lemma_fresh_name_ident_gen(name: Seq<char>, n: usize)
    requires
        clean_str(name),
    ensures
        clean_str(fresh_name(name, n)),
{
    lemma_fresh_name_ident(name, n);
}

/// Whether some element of `s` views as `name`.
pub open spec fn contains_str(s: Seq<Seq<char>>, name: Seq<char>) -> bool
    decreases s.len(),
{
    if s.len() == 0 {
        false
    } else {
        s[0] == name || contains_str(s.drop_first(), name)
    }
}

/// Membership in a name list survives appending another name.
pub proof fn lemma_contains_push(s: Seq<Seq<char>>, x: Seq<char>, y: Seq<char>)
    ensures
        contains_str(s.push(y), x) == (contains_str(s, x) || x == y),
    decreases s.len(),
{
    if s.len() == 0 {
        assert(s.push(y)[0] == y);
        assert(s.push(y).drop_first() =~= s);
    } else {
        assert(s.push(y)[0] == s[0]);
        assert(s.push(y).drop_first() =~= s.drop_first().push(y));
        lemma_contains_push(s.drop_first(), x, y);
    }
}

/// The intrinsic registry: the declared guest helpers, and the names of
/// those the generated code has referenced so far.
pub struct Intrinsics {
    pub intrinsics: Vec<SharedIntrinsic>,
    pub used: Vec<String>,
}

impl Intrinsics {
    /// The declared intrinsics as (logical name, export symbol) pairs.
    pub open spec fn list(self) -> Seq<(Seq<char>, Seq<char>)> {
        self.intrinsics@.map_values(|s: SharedIntrinsic| (s.name@, s.export_name@))
    }

    /// The logical names referenced so far, in first-use order.
    pub open spec fn used_view(self) -> Seq<Seq<char>> {
        self.used@.map_values(|s: String| s@)
    }

    pub fn new(intrinsics: Vec<SharedIntrinsic>) -> (r: Self)
        ensures
            r.intrinsics == intrinsics,
            r.used_view() =~= Seq::<Seq<char>>::empty(),
    {
        Intrinsics { intrinsics, used: Vec::new() }
    }

    /// Looks up the export symbol of the intrinsic without recording a use.
    pub fn lookup(&self, name: &str) -> (r: Option<String>)
        ensures
            match r {
                Option::Some(e) => find_intrinsic(self.list(), name@) == Option::Some(e@),
                Option::None => find_intrinsic(self.list(), name@) is None,
            },
    {
        let name_s = String::from_str(name);
        let ghost glist = self.list();
        let len = self.intrinsics.len();
        let mut i: usize = 0;
        let mut found = len;
        while i < len
            invariant
                0 <= i <= len,
                len == self.intrinsics@.len(),
                name_s@ == name@,
                glist == self.list(),
                found <= len,
                found < len ==> i == len,
                found == len ==> forall|k: int|
                    0 <= k < i ==> (#[trigger] self.intrinsics@[k]).name@ != name@,
                found < len ==> self.intrinsics@[found as int].name@ == name@ && forall|k: int|
                    0 <= k < found ==> (#[trigger] self.intrinsics@[k]).name@ != name@,
            decreases len - i,
        {
            if self.intrinsics[i].name.eq(&name_s) {
                found = i;
                i = len;
            } else {
                i = i + 1;
            }
        }
        proof {
            assert forall|k: int| 0 <= k < glist.len() implies #[trigger] glist[k] == (
                self.intrinsics@[k].name@,
                self.intrinsics@[k].export_name@,
            ) by {}
            lemma_find_intrinsic_at(glist, name@, found as int);
        }
        if found < len {
            Some(self.intrinsics[found].export_name.clone())
        } else {
            None
        }
    }

    /// Looks up the export symbol of the intrinsic and records the first use
    /// of its logical name.
    pub fn get(&mut self, name: &str) -> (r: Option<String>)
        ensures
            final(self).intrinsics == old(self).intrinsics,
            match r {
                Option::Some(e) => find_intrinsic(old(self).list(), name@) == Option::Some(e@),
                Option::None => find_intrinsic(old(self).list(), name@) is None,
            },
            final(self).used_view() == if r is Some && !contains_str(
                old(self).used_view(),
                name@,
            ) {
                old(self).used_view().push(name@)
            } else {
                old(self).used_view()
            },
    {
        let name_s = String::from_str(name);
        let ghost glist = self.list();
        let len = self.intrinsics.len();
        let mut i: usize = 0;
        let mut found = len;
        while i < len
            invariant
                0 <= i <= len,
                len == self.intrinsics@.len(),
                name_s@ == name@,
                self == old(self),
                glist == self.list(),
                found <= len,
                found < len ==> i == len,
                found == len ==> forall|k: int|
                    0 <= k < i ==> (#[trigger] self.intrinsics@[k]).name@ != name@,
                found < len ==> self.intrinsics@[found as int].name@ == name@ && forall|k: int|
                    0 <= k < found ==> (#[trigger] self.intrinsics@[k]).name@ != name@,
            decreases len - i,
        {
            if self.intrinsics[i].name.eq(&name_s) {
                found = i;
                i = len;
            } else {
                i = i + 1;
            }
        }
        proof {
            assert forall|k: int| 0 <= k < glist.len() implies #[trigger] glist[k] == (
                self.intrinsics@[k].name@,
                self.intrinsics@[k].export_name@,
            ) by {}
            lemma_find_intrinsic_at(glist, name@, found as int);
        }
        if found < len {
            let export = self.intrinsics[found].export_name.clone();
            let ghost gused = self.used_view();
            let ulen = self.used.len();
            let mut j: usize = 0;
            let mut seen_at = ulen;
            while j < ulen
                invariant
                    0 <= j <= ulen,
                    ulen == self.used@.len(),
                    name_s@ == name@,
                    self == old(self),
                    gused == self.used_view(),
                    seen_at <= ulen,
                    seen_at < ulen ==> j == ulen,
                    seen_at == ulen ==> forall|k: int|
                        0 <= k < j ==> (#[trigger] self.used@[k])@ != name@,
                    seen_at < ulen ==> self.used@[seen_at as int]@ == name@ && forall|k: int|
                        0 <= k < seen_at ==> (#[trigger] self.used@[k])@ != name@,
                decreases ulen - j,
            {
                if self.used[j].eq(&name_s) {
                    seen_at = j;
                    j = ulen;
                } else {
                    j = j + 1;
                }
            }
            let seen = seen_at < ulen;
            proof {
                assert forall|k: int| 0 <= k < gused.len() implies #[trigger] gused[k]
                    == self.used@[k]@ by {}
                lemma_contains_str_at(gused, name@, seen_at as int);
            }
            if !seen {
                self.used.push(String::from_str(name));
                proof {
                    assert(final(self).used_view() =~= gused.push(name@));
                }
            }
            Some(export)
        } else {
            None
        }
    }
}

proof fn lemma_find_intrinsic_at(list: Seq<(Seq<char>, Seq<char>)>, name: Seq<char>, found: int)
    requires
        0 <= found <= list.len(),
        forall|k: int| 0 <= k < found ==> list[k].0 != name,
        found < list.len() ==> list[found].0 == name,
    ensures
        found < list.len() ==> find_intrinsic(list, name) == Option::Some(list[found].1),
        found == list.len() ==> find_intrinsic(list, name) is None,
    decreases list.len(),
{
    if list.len() > 0 && list[0].0 != name {
        lemma_find_intrinsic_at(list.drop_first(), name, found - 1);
    }
}

proof fn lemma_contains_str_at(s: Seq<Seq<char>>, name: Seq<char>, found: int)
    requires
        0 <= found <= s.len(),
        forall|k: int| 0 <= k < found ==> s[k] != name,
        found < s.len() ==> s[found] == name,
    ensures
        contains_str(s, name) == (found < s.len()),
    decreases s.len(),
{
    if s.len() > 0 && s[0] != name {
        lemma_contains_str_at(s.drop_first(), name, found - 1);
    }
}

/// The state every instruction renders against: the text sink, the input
/// stack of script expressions, the name allocator and the intrinsics.
pub struct InstructionContext {
    pub out: IndentedWriter,
    pub inputs: Vec<String>,
    pub vars: Vars,
    pub intrinsics: Intrinsics,
}

impl InstructionContext {
    /// The emitted text so far.
    pub open spec fn text(self) -> Seq<char> {
        self.out.out@
    }

    /// The input stack as character sequences, bottom first.
    pub open spec fn stack(self) -> Seq<Seq<char>> {
        self.inputs.deep_view()
    }

    pub open spec fn wf(self) -> bool {
        &&& self.vars.wf()
        &&& clean_exports(self.intrinsics.list())
    }

    pub fn new(intrinsics: Vec<SharedIntrinsic>) -> (r: Self)
        requires
            forall|k: int|
                0 <= k < intrinsics@.len() ==> clean_str(
                    (#[trigger] intrinsics@[k]).export_name@,
                ),
        ensures
            r.wf(),
            r.text() =~= Seq::<char>::empty(),
            r.out.indent == 0,
            r.out.new_line == true,
            r.inputs@ =~= Seq::<String>::empty(),
            r.vars.scopes() =~= seq![Seq::<(Seq<char>, usize)>::empty()],
            r.intrinsics.intrinsics == intrinsics,
            r.intrinsics.used_view() =~= Seq::<Seq<char>>::empty(),
    {
        InstructionContext {
            out: IndentedWriter::new(),
            inputs: Vec::new(),
            vars: Vars::new(),
            intrinsics: Intrinsics::new(intrinsics),
        }
    }

    pub fn push(&mut self, value: String)
        ensures
            final(self).inputs@ == old(self).inputs@.push(value),
            final(self).out == old(self).out,
            final(self).vars == old(self).vars,
            final(self).intrinsics == old(self).intrinsics,
    {
        self.inputs.push(value);
    }

    pub fn pop(&mut self) -> (r: String)
        requires
            old(self).inputs@.len() > 0,
        ensures
            r == old(self).inputs@.last(),
            final(self).inputs@ == old(self).inputs@.drop_last(),
            final(self).out == old(self).out,
            final(self).vars == old(self).vars,
            final(self).intrinsics == old(self).intrinsics,
    {
        match self.inputs.pop() {
            Some(s) => s,
            None => vstd::pervasive::unreached(),
        }
    }

    /// Pops `count` entries, returning them bottom first.
    pub fn pop_many(&mut self, count: usize) -> (r: Vec<String>)
        requires
            old(self).inputs@.len() >= count,
        ensures
            r@ == old(self).inputs@.subrange(
                old(self).inputs@.len() - count,
                old(self).inputs@.len() as int,
            ),
            final(self).inputs@ == old(self).inputs@.subrange(
                0,
                old(self).inputs@.len() - count,
            ),
            final(self).out == old(self).out,
            final(self).vars == old(self).vars,
            final(self).intrinsics == old(self).intrinsics,
    {
        let at = self.inputs.len() - count;
        self.inputs.split_off(at)
    }

    /// Hoists `expr` into a fresh `prereq` local unless it is already a
    /// plain identifier, so that the caller may interpolate the result
    /// twice without duplicating side effects.
    pub fn prereq_complex(&mut self, expr: String) -> (r: String)
        requires
            old(self).wf(),
            forall|i: int| 0 <= i < expr@.len() ==> expr@[i] != '\n',
        ensures
            final(self).wf(),
            final(self).inputs == old(self).inputs,
            final(self).intrinsics == old(self).intrinsics,
            final(self).out.indent == old(self).out.indent,
            spec_simple_ident(expr@) ==> (r == expr && *final(self) == *old(self)),
            !spec_simple_ident(expr@) ==> {
                &&& r@ == fresh_name("prereq"@, spec_count(old(self).vars.top(), "prereq"@))
                &&& final(self).vars.scopes() == old(self).vars.scopes().drop_last().push(
                    spec_bump(old(self).vars.top(), "prereq"@),
                )
                &&& final(self).text() == old(self).text() + if old(self).out.new_line {
                    tabs(old(self).out.indent as nat)
                } else {
                    Seq::<char>::empty()
                } + "local "@ + r@ + " = "@ + expr@ + seq!['\n']
                &&& final(self).out.new_line == true
            },
    {
        if is_simple_ident(expr.as_str()) {
            expr
        } else {
            let id = self.vars.next("prereq");
            let mut line = String::from_str("local ");
            line.append(id.as_str());
            line.append(" = ");
            line.append(expr.as_str());
            proof {
                reveal_strlit("prereq");
                lemma_fresh_name_ident(
                    "prereq"@,
                    spec_count(old(self).vars.top(), "prereq"@),
                );
                assert(forall|i: int| 0 <= i < line@.len() ==> line@[i] != '\n') by {
                    reveal_strlit("local ");
                    reveal_strlit(" = ");
                }
            }
            self.out.writeln(line.as_str());
            proof {
                assert(final(self).vars.scopes() =~= old(self).vars.scopes().drop_last().push(
                    spec_bump(old(self).vars.top(), "prereq"@),
                ));
            }
            id
        }
    }

    /// Pops the top expression and hoists it as `prereq_complex` does.
    pub fn pop_complex(&mut self) -> (r: String)
        requires
            old(self).wf(),
            old(self).inputs@.len() > 0,
            forall|i: int| 0 <= i < old(self).inputs@.last()@.len() ==> old(
                self,
            ).inputs@.last()@[i] != '\n',
        ensures
            final(self).wf(),
            final(self).inputs@ == old(self).inputs@.drop_last(),
            final(self).intrinsics == old(self).intrinsics,
            final(self).out.indent == old(self).out.indent,
            spec_simple_ident(old(self).inputs@.last()@) ==> (r == old(self).inputs@.last()
                && final(self).out == old(self).out && final(self).vars == old(self).vars),
            !spec_simple_ident(old(self).inputs@.last()@) ==> {
                &&& r@ == fresh_name("prereq"@, spec_count(old(self).vars.top(), "prereq"@))
                &&& final(self).vars.scopes() == old(self).vars.scopes().drop_last().push(
                    spec_bump(old(self).vars.top(), "prereq"@),
                )
                &&& final(self).text() == old(self).text() + if old(self).out.new_line {
                    tabs(old(self).out.indent as nat)
                } else {
                    Seq::<char>::empty()
                } + "local "@ + r@ + " = "@ + old(self).inputs@.last()@ + seq!['\n']
                &&& final(self).out.new_line == true
            },
    {
        let value = self.pop();
        self.prereq_complex(value)
    }
}

/// A name built by `fresh_name` contains no newline, being a stem of
/// identifier characters, an underscore and decimal digits.
pub proof fn lemma_fresh_name_ident(name: Seq<char>, n: usize)
    requires
        forall|i: int| 0 <= i < name.len() ==> name[i] != '\n',
    ensures
        forall|i: int| 0 <= i < fresh_name(name, n).len() ==> fresh_name(name, n)[i] != '\n',
{
    lemma_dec_no_newline(n as nat);
}

pub proof fn lemma_dec_no_newline(n: nat)
    ensures
        forall|i: int| 0 <= i < spec_dec(n).len() ==> spec_dec(n)[i] != '\n',
{
    crate::strutil::lemma_dec_clean(n);
}

} // verus!
