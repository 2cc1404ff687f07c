use vstd::prelude::*;
use crate::ctx::ParseContext;
use crate::document::Node;
use crate::diagnostic::{Diagnostic, ErrorKind};
use crate::text::{join3, same_text};

verus! {

/// Whether context `c` is focused on a node named `name`.
pub open spec fn named_as(c: ParseContext, name: Seq<char>) -> bool {
    c.spec_name() == Some(name)
}

/// Whether `s[i]` is the first context of `s` named `name`.
pub open spec fn is_first_named(s: Seq<ParseContext>, name: Seq<char>, i: int) -> bool {
    0 <= i < s.len() && named_as(s[i], name) && forall|j: int|
        0 <= j < i ==> !named_as(#[trigger] s[j], name)
}

pub open spec fn has_named(s: Seq<ParseContext>, name: Seq<char>) -> bool {
    exists|i: int| 0 <= i < s.len() && named_as(#[trigger] s[i], name)
}

/// The position of the first context of `s` named `name`.
pub open spec fn first_named(s: Seq<ParseContext>, name: Seq<char>) -> int {
    choose|i: int| is_first_named(s, name, i)
}

/// The contexts of `s` named `name`, in order.
pub open spec fn matching<'a>(s: Seq<ParseContext<'a>>, name: Seq<char>) -> Seq<ParseContext<'a>>
    decreases s.len(),
{
    if s.len() == 0 {
        Seq::empty()
    } else if named_as(s.last(), name) {
        matching(s.drop_last(), name).push(s.last())
    } else {
        matching(s.drop_last(), name)
    }
}

/// The contexts of `s` not named `name`, in order.
pub open spec fn others<'a>(s: Seq<ParseContext<'a>>, name: Seq<char>) -> Seq<ParseContext<'a>>
    decreases s.len(),
{
    if s.len() == 0 {
        Seq::empty()
    } else if named_as(s.last(), name) {
        others(s.drop_last(), name)
    } else {
        others(s.drop_last(), name).push(s.last())
    }
}

/// Whether `f` has an `Ok` outcome on `c`.
pub open spec fn succeeded<'a, T, F: Fn(ParseContext<'a>) -> Result<T, Diagnostic>>(f: F, c: ParseContext<'a>) -> bool {
    exists|v: T| #[trigger] f.ensures((c,), Ok::<T, Diagnostic>(v))
}

/// Whether every context of `s` is focused on a node.
pub open spec fn all_nodes(s: Seq<ParseContext>) -> bool {
    forall|i: int| 0 <= i < s.len() ==> (#[trigger] s[i]).spec_node() is Some
}

pub proof fn lemma_first_named(s: Seq<ParseContext>, name: Seq<char>, i: int)
    requires
        is_first_named(s, name, i),
    ensures
        first_named(s, name) == i,
        has_named(s, name),
{
    let j = first_named(s, name);
    assert(is_first_named(s, name, j));
    if j < i {
        assert(!named_as(s[j], name));
    }
    if i < j {
        assert(!named_as(s[i], name));
    }
}

pub proof fn lemma_others_nodes(s: Seq<ParseContext>, name: Seq<char>)
    requires
        all_nodes(s),
    ensures
        all_nodes(others(s, name)),
    decreases s.len(),
{
    if s.len() > 0 {
        lemma_others_nodes(s.drop_last(), name);
    }
}

/// Whether the contexts of `s` focus, in order, on the nodes of `bl`.
pub open spec fn mirrors(s: Seq<ParseContext>, bl: Seq<Node>) -> bool {
    s.len() == bl.len() && forall|i: int| 0 <= i < s.len() ==> (#[trigger] s[i]).spec_node() == Some(bl[i])
}

/// Whether `bl[i]` is the first node of `bl` named `name`.
pub open spec fn is_first_node(bl: Seq<Node>, name: Seq<char>, i: int) -> bool {
    0 <= i < bl.len() && bl[i].name@ == name && forall|j: int| 0 <= j < i ==> (#[trigger] bl[j]).name@ != name
}

pub open spec fn has_node(bl: Seq<Node>, name: Seq<char>) -> bool {
    exists|i: int| 0 <= i < bl.len() && (#[trigger] bl[i]).name@ == name
}

/// The position of the first node of `bl` named `name`.
pub open spec fn first_node(bl: Seq<Node>, name: Seq<char>) -> int {
    choose|i: int| is_first_node(bl, name, i)
}

/// `bl` without its first node named `name`, if it has one.
pub open spec fn without_first(bl: Seq<Node>, name: Seq<char>) -> Seq<Node> {
    if has_node(bl, name) { bl.remove(first_node(bl, name)) } else { bl }
}

/// The nodes of `bl` named `name`, in order.
pub open spec fn nodes_named(bl: Seq<Node>, name: Seq<char>) -> Seq<Node>
    decreases bl.len(),
{
    if bl.len() == 0 {
        Seq::empty()
    } else if bl.last().name@ == name {
        nodes_named(bl.drop_last(), name).push(bl.last())
    } else {
        nodes_named(bl.drop_last(), name)
    }
}

/// The nodes of `bl` not named `name`, in order.
pub open spec fn nodes_not_named(bl: Seq<Node>, name: Seq<char>) -> Seq<Node>
    decreases bl.len(),
{
    if bl.len() == 0 {
        Seq::empty()
    } else if bl.last().name@ == name {
        nodes_not_named(bl.drop_last(), name)
    } else {
        nodes_not_named(bl.drop_last(), name).push(bl.last())
    }
}

pub proof fn lemma_first_node(bl: Seq<Node>, name: Seq<char>, i: int)
    requires
        is_first_node(bl, name, i),
    ensures
        first_node(bl, name) == i,
        has_node(bl, name),
{
    let j = first_node(bl, name);
    assert(is_first_node(bl, name, j));
    if j < i {
        assert(bl[j].name@ != name);
    }
    if i < j {
        assert(bl[i].name@ != name);
    }
}

/// A node list with a node named `name` has a first one.
pub proof fn lemma_has_first_node(bl: Seq<Node>, name: Seq<char>)
    requires
        has_node(bl, name),
    ensures
        is_first_node(bl, name, first_node(bl, name)),
    decreases bl.len(),
{
    let i = choose|i: int| 0 <= i < bl.len() && (#[trigger] bl[i]).name@ == name;
    if exists|j: int| 0 <= j < i && (#[trigger] bl[j]).name@ == name {
        let p = bl.subrange(0, i);
        let j = choose|j: int| 0 <= j < i && (#[trigger] bl[j]).name@ == name;
        assert(p[j].name@ == name);
        lemma_has_first_node(p, name);
        let k = first_node(p, name);
        assert forall|t: int| 0 <= t < k implies (#[trigger] bl[t]).name@ != name by {
            assert(p[t].name@ != name);
        }
        assert(is_first_node(bl, name, k));
    } else {
        assert(is_first_node(bl, name, i));
    }
}

/// Taking the first directive named `name` from mirrored lists keeps them mirrored.
pub proof fn lemma_mirror_first(s: Seq<ParseContext>, bl: Seq<Node>, name: Seq<char>)
    requires
        mirrors(s, bl),
    ensures
        has_named(s, name) == has_node(bl, name),
        has_node(bl, name) ==> first_named(s, name) == first_node(bl, name),
        has_node(bl, name) ==> mirrors(s.remove(first_named(s, name)), without_first(bl, name)),
        !has_node(bl, name) ==> without_first(bl, name) == bl,
{
    if has_named(s, name) {
        let i = choose|i: int| 0 <= i < s.len() && named_as(#[trigger] s[i], name);
        assert(bl[i].name@ == name);
    }
    if has_node(bl, name) {
        let i = choose|i: int| 0 <= i < bl.len() && (#[trigger] bl[i]).name@ == name;
        assert(named_as(s[i], name));
        lemma_has_first_node(bl, name);
        let k = first_node(bl, name);
        assert forall|j: int| 0 <= j < k implies !named_as(#[trigger] s[j], name) by {
            assert(bl[j].name@ != name);
        }
        assert(is_first_named(s, name, k));
        lemma_first_named(s, name, k);
        let s2 = s.remove(k);
        let b2 = bl.remove(k);
        assert forall|j: int| 0 <= j < s2.len() implies (#[trigger] s2[j]).spec_node() == Some(b2[j]) by {
            if j >= k {
                assert(s2[j] == s[j + 1]);
            }
        }
    }
}

/// Splitting mirrored lists by name keeps both parts mirrored.
pub proof fn lemma_mirror_split(s: Seq<ParseContext>, bl: Seq<Node>, name: Seq<char>)
    requires
        mirrors(s, bl),
    ensures
        mirrors(matching(s, name), nodes_named(bl, name)),
        mirrors(others(s, name), nodes_not_named(bl, name)),
    decreases s.len(),
{
    if s.len() > 0 {
        assert(mirrors(s.drop_last(), bl.drop_last()));
        lemma_mirror_split(s.drop_last(), bl.drop_last(), name);
        assert(s.last().spec_node() == Some(bl.last()));
    }
}

/// A list whose nodes are all named `name` is all taken by the name.
pub proof fn lemma_all_named(bl: Seq<Node>, name: Seq<char>)
    requires
        forall|i: int| 0 <= i < bl.len() ==> (#[trigger] bl[i]).name@ == name,
    ensures
        nodes_named(bl, name) == bl,
        nodes_not_named(bl, name).len() == 0,
    decreases bl.len(),
{
    if bl.len() > 0 {
        lemma_all_named(bl.drop_last(), name);
        assert(nodes_named(bl, name) =~= bl);
    }
}

/// The nodes not named `name` are, first of all, the first such node of the list.
pub proof fn lemma_not_named_first(bl: Seq<Node>, name: Seq<char>)
    ensures
        nodes_not_named(bl, name).len() == 0 <==> forall|i: int| 0 <= i < bl.len() ==> (#[trigger] bl[i]).name@ == name,
        nodes_not_named(bl, name).len() > 0 ==> exists|i: int| 0 <= i < bl.len() && bl[i].name@ != name
            && #[trigger] nodes_not_named(bl, name)[0] == bl[i] && forall|j: int| 0 <= j < i ==> (#[trigger] bl[j]).name@ == name,
    decreases bl.len(),
{
    if bl.len() > 0 {
        let p = bl.drop_last();
        lemma_not_named_first(p, name);
        if nodes_not_named(p, name).len() > 0 {
            let i = choose|i: int| 0 <= i < p.len() && p[i].name@ != name
                && #[trigger] nodes_not_named(p, name)[0] == p[i] && forall|j: int| 0 <= j < i ==> (#[trigger] p[j]).name@ == name;
            assert(bl[i] == p[i]);
            assert forall|j: int| 0 <= j < i implies (#[trigger] bl[j]).name@ == name by {
                assert(p[j].name@ == name);
            }
            assert(bl[i].name@ != name);
        } else if bl.last().name@ != name {
            let i = bl.len() - 1;
            assert forall|j: int| 0 <= j < i implies (#[trigger] bl[j]).name@ == name by {
                assert(p[j].name@ == name);
            }
        }
        if nodes_not_named(bl, name).len() == 0 {
            assert forall|i: int| 0 <= i < bl.len() implies (#[trigger] bl[i]).name@ == name by {
                if i < bl.len() - 1 {
                    assert(p[i].name@ == name);
                }
            }
        } else {
            if forall|i: int| 0 <= i < bl.len() ==> (#[trigger] bl[i]).name@ == name {
                assert forall|i: int| 0 <= i < p.len() implies (#[trigger] p[i]).name@ == name by {
                    assert(bl[i].name@ == name);
                }
                assert(bl[bl.len() - 1].name@ == name);
            }
        }
    }
}

/// Every node named `name` is a node of the list.
pub proof fn lemma_named_from(bl: Seq<Node>, name: Seq<char>, k: int)
    requires
        0 <= k < nodes_named(bl, name).len(),
    ensures
        exists|i: int| 0 <= i < bl.len() && #[trigger] bl[i] == nodes_named(bl, name)[k],
        nodes_named(bl, name)[k].name@ == name,
    decreases bl.len(),
{
    let p = bl.drop_last();
    if k < nodes_named(p, name).len() {
        lemma_named_from(p, name, k);
        let i = choose|i: int| 0 <= i < p.len() && #[trigger] p[i] == nodes_named(p, name)[k];
        assert(bl[i] == p[i]);
    } else {
        assert(bl[bl.len() - 1] == nodes_named(bl, name)[k]);
    }
}

/// Consumes the directives of one block: each is taken by `required`,
/// `optional` or `repeated`, and `exhaust` reports any left over.
pub struct BlockParser<'a> {
    pub ctx: ParseContext<'a>,
    pub pending: Vec<ParseContext<'a>>,
}

impl<'a> BlockParser<'a> {
    /// The directives not consumed yet are node contexts.
    pub open spec fn wf(&self) -> bool {
        all_nodes(self.pending@)
    }

    /// A parser over the block that `ctx` focuses on.
    pub fn new(ctx: ParseContext<'a>) -> (r: Result<BlockParser<'a>, Diagnostic>)
        ensures
            match r {
                Ok(b) => ctx.spec_block() matches Some(bl) && b.wf() && b.ctx == ctx
                    && b.pending@.len() == bl.len() && forall|i: int|
                    0 <= i < bl.len() ==> ctx.same_source(#[trigger] b.pending@[i])
                        && b.pending@[i].spec_node() == Some(bl[i]),
                Err(d) => ctx.spec_block() is None && ctx.anchors(d, ErrorKind::Shape),
            },
    {
        match ctx.nodes() {
            Ok(pending) => {
                let b = BlockParser { ctx, pending };
                assert forall|i: int| 0 <= i < b.pending@.len() implies (
                #[trigger] b.pending@[i]).spec_node() is Some by {}
                Ok(b)
            },
            Err(d) => Err(d),
        }
    }

    /// The position of the first pending directive named `name`.
    fn find(&self, name: &str) -> (r: Option<usize>)
        requires
            self.wf(),
        ensures
            match r {
                Some(i) => is_first_named(self.pending@, name@, i as int) && first_named(
                    self.pending@,
                    name@,
                ) == i,
                None => !has_named(self.pending@, name@),
            },
    {
        let mut i: usize = 0;
        while i < self.pending.len()
            invariant
                self.wf(),
                i <= self.pending@.len(),
                forall|j: int| 0 <= j < i ==> !named_as(#[trigger] self.pending@[j], name@),
            decreases self.pending.len() - i,
        {
            let c = self.pending[i];
            assert(c.spec_node() is Some);
            let n = match c.name() {
                Ok(n) => n,
                Err(_) => "",
            };
            if same_text(n, name) {
                proof {
                    lemma_first_named(self.pending@, name@, i as int);
                }
                return Some(i);
            }
            i = i + 1;
        }
        None
    }

    /// Takes the first pending directive named `name` and extracts it with `f`;
    /// fails when there is none.
    pub fn required<T, F: Fn(ParseContext<'a>) -> Result<T, Diagnostic>>(
        &mut self,
        name: &str,
        f: F,
    ) -> (r: Result<T, Diagnostic>)
        requires
            old(self).wf(),
            forall|c: ParseContext<'a>| f.requires((c,)),
        ensures
            final(self).wf(),
            final(self).ctx == old(self).ctx,
            has_named(old(self).pending@, name@) ==> final(self).pending@ == old(
                self,
            ).pending@.remove(first_named(old(self).pending@, name@)) && f.ensures(
                (old(self).pending@[first_named(old(self).pending@, name@)],),
                r,
            ),
            !has_named(old(self).pending@, name@) ==> final(self).pending@ == old(self).pending@
                && (r matches Err(d) && old(self).ctx.anchors(d, ErrorKind::MissingRequired)
                && d.message@ == "Missing required directive '"@ + name@ + "'"@),
    {
        match self.find(name) {
            Some(i) => {
                let c = self.pending.remove(i);
                assert forall|j: int| 0 <= j < self.pending@.len() implies (
                #[trigger] self.pending@[j]).spec_node() is Some by {
                    if j >= i {
                        assert(self.pending@[j] == old(self).pending@[j + 1]);
                    }
                }
                f(c)
            },
            None => Err(
                self.ctx.error(
                    ErrorKind::MissingRequired,
                    join3("Missing required directive '", name, "'"),
                ),
            ),
        }
    }

    /// Takes the first pending directive named `name`, if there is one, and
    /// extracts it with `f`.
    pub fn optional<T, F: Fn(ParseContext<'a>) -> Result<T, Diagnostic>>(
        &mut self,
        name: &str,
        f: F,
    ) -> (r: Result<Option<T>, Diagnostic>)
        requires
            old(self).wf(),
            forall|c: ParseContext<'a>| f.requires((c,)),
        ensures
            final(self).wf(),
            final(self).ctx == old(self).ctx,
            has_named(old(self).pending@, name@) ==> final(self).pending@ == old(
                self,
            ).pending@.remove(first_named(old(self).pending@, name@)) && exists|
                fr: Result<T, Diagnostic>,
            |
                #![trigger f.ensures((old(self).pending@[first_named(old(self).pending@, name@)],), fr)]
                f.ensures((old(self).pending@[first_named(old(self).pending@, name@)],), fr) && r
                    == match fr {
                    Ok(t) => Ok::<Option<T>, Diagnostic>(Some(t)),
                    Err(d) => Err(d),
                },
            !has_named(old(self).pending@, name@) ==> final(self).pending@ == old(self).pending@
                && (r matches Ok(None)),
    {
        match self.find(name) {
            Some(i) => {
                let c = self.pending.remove(i);
                assert forall|j: int| 0 <= j < self.pending@.len() implies (
                #[trigger] self.pending@[j]).spec_node() is Some by {
                    if j >= i {
                        assert(self.pending@[j] == old(self).pending@[j + 1]);
                    }
                }
                let fr = f(c);
                match fr {
                    Ok(t) => Ok(Some(t)),
                    Err(d) => Err(d),
                }
            },
            None => Ok(None),
        }
    }

    /// Takes every pending directive named `name`, in order, and extracts each
    /// with `f`; the first failure stops it.
    pub fn repeated<T, F: Fn(ParseContext<'a>) -> Result<T, Diagnostic>>(
        &mut self,
        name: &str,
        f: F,
    ) -> (r: Result<Vec<T>, Diagnostic>)
        requires
            old(self).wf(),
            forall|c: ParseContext<'a>| f.requires((c,)),
        ensures
            final(self).wf(),
            final(self).ctx == old(self).ctx,
            final(self).pending@ == others(old(self).pending@, name@),
            match r {
                Ok(v) => v@.len() == matching(old(self).pending@, name@).len() && forall|i: int|
                    0 <= i < v@.len() ==> f.ensures(
                        (matching(old(self).pending@, name@)[i],),
                        Ok::<T, Diagnostic>(#[trigger] v@[i]),
                    ),
                Err(d) => exists|k: int|
                    0 <= k < matching(old(self).pending@, name@).len() && f.ensures(
                        (#[trigger] matching(old(self).pending@, name@)[k],),
                        Err::<T, Diagnostic>(d),
                    ) && forall|j: int|
                        0 <= j < k ==> succeeded(f, #[trigger] matching(old(self).pending@, name@)[j]),
            },
    {
        let ghost s = self.pending@;
        let mut taken: Vec<ParseContext<'a>> = Vec::new();
        let mut kept: Vec<ParseContext<'a>> = Vec::new();
        let mut i: usize = 0;
        while i < self.pending.len()
            invariant
                s == self.pending@,
                s == old(self).pending@,
                self.ctx == old(self).ctx,
                all_nodes(s),
                i <= s.len(),
                taken@ == matching(s.subrange(0, i as int), name@),
                kept@ == others(s.subrange(0, i as int), name@),
            decreases self.pending.len() - i,
        {
            let c = self.pending[i];
            assert(s.subrange(0, i + 1).drop_last() =~= s.subrange(0, i as int));
            let n = match c.name() {
                Ok(n) => n,
                Err(_) => "",
            };
            assert(c.spec_node() is Some);
            if same_text(n, name) {
                taken.push(c);
            } else {
                kept.push(c);
            }
            i = i + 1;
        }
        assert(s.subrange(0, s.len() as int) =~= s);
        proof {
            lemma_others_nodes(s, name@);
        }
        self.pending = kept;
        let mut out: Vec<T> = Vec::new();
        let mut k: usize = 0;
        while k < taken.len()
            invariant
                k <= taken@.len(),
                taken@ == matching(s, name@),
                self.wf(),
                self.ctx == old(self).ctx,
                self.pending@ == others(s, name@),
                s == old(self).pending@,
                forall|c: ParseContext<'a>| f.requires((c,)),
                out@.len() == k,
                forall|j: int|
                    0 <= j < k ==> f.ensures((taken@[j],), Ok::<T, Diagnostic>(#[trigger] out@[j])),
            decreases taken.len() - k,
        {
            match f(taken[k]) {
                Ok(t) => out.push(t),
                Err(d) => {
                    assert forall|j: int| 0 <= j < k implies succeeded(f, #[trigger] taken@[j]) by {
                        assert(f.ensures((taken@[j],), Ok::<T, Diagnostic>(out@[j])));
                    }
                    return Err(d);
                },
            }
            k = k + 1;
        }
        Ok(out)
    }

    /// Succeeds when every directive of the block has been consumed; else names
    /// the first one left.
    pub fn exhaust(&self) -> (r: Result<(), Diagnostic>)
        requires
            self.wf(),
        ensures
            match r {
                Ok(_) => self.pending@.len() == 0,
                Err(d) => self.pending@.len() > 0 && self.pending@[0].anchors(
                    d,
                    ErrorKind::UnknownDirective,
                ) && (self.pending@[0].spec_name() matches Some(n) && d.message@
                    == "Unknown directive: '"@ + n + "'"@),
            },
    {
        if self.pending.len() == 0 {
            return Ok(());
        }
        let c = self.pending[0];
        assert(c.spec_node() is Some);
        let n = match c.name() {
            Ok(n) => n,
            Err(_) => "",
        };
        Err(c.error(ErrorKind::UnknownDirective, join3("Unknown directive: '", n, "'")))
    }
}

} // verus!

verus! {

/// The nodes of `bl` whose names are not among `names`, in order.
pub open spec fn nodes_outside(bl: Seq<Node>, names: Seq<Seq<char>>) -> Seq<Node>
    decreases bl.len(),
{
    if bl.len() == 0 {
        Seq::empty()
    } else if names.contains(bl.last().name@) {
        nodes_outside(bl.drop_last(), names)
    } else {
        nodes_outside(bl.drop_last(), names).push(bl.last())
    }
}

/// The nodes of a block left pending after `repeated` has taken each of `names`
/// in turn.
pub open spec fn left_after_repeated(bl: Seq<Node>, names: Seq<Seq<char>>) -> Seq<Node>
    decreases names.len(),
{
    if names.len() == 0 {
        bl
    } else {
        nodes_not_named(left_after_repeated(bl, names.drop_last()), names.last())
    }
}

proof fn lemma_outside_push(bl: Seq<Node>, names: Seq<Seq<char>>, n: Seq<char>)
    ensures
        nodes_not_named(nodes_outside(bl, names), n) == nodes_outside(bl, names.push(n)),
    decreases bl.len(),
{
    if bl.len() > 0 {
        let p = bl.drop_last();
        lemma_outside_push(p, names, n);
        let x = bl.last().name@;
        assert(names.push(n).contains(x) <==> (names.contains(x) || x == n)) by {
            if names.push(n).contains(x) {
                let i = choose|i: int| 0 <= i < names.push(n).len() && names.push(n)[i] == x;
                if i < names.len() {
                    assert(names[i] == x);
                }
            }
            if names.contains(x) {
                let i = choose|i: int| 0 <= i < names.len() && names[i] == x;
                assert(names.push(n)[i] == x);
            }
            if x == n {
                assert(names.push(n)[names.len() as int] == x);
            }
        }
        if !names.contains(x) {
            assert(nodes_outside(bl, names).drop_last() =~= nodes_outside(p, names));
        }
    }
}

proof fn lemma_left_after(bl: Seq<Node>, names: Seq<Seq<char>>)
    ensures
        left_after_repeated(bl, names) == nodes_outside(bl, names),
    decreases names.len(),
{
    if names.len() == 0 {
        lemma_outside_none(bl, names);
    } else {
        lemma_left_after(bl, names.drop_last());
        lemma_outside_push(bl, names.drop_last(), names.last());
        assert(names.drop_last().push(names.last()) =~= names);
    }
}

proof fn lemma_outside_none(bl: Seq<Node>, names: Seq<Seq<char>>)
    requires
        names.len() == 0,
    ensures
        nodes_outside(bl, names) == bl,
    decreases bl.len(),
{
    if bl.len() > 0 {
        lemma_outside_none(bl.drop_last(), names);
        assert(bl.drop_last().push(bl.last()) =~= bl);
    }
}

proof fn lemma_outside_concat(a: Seq<Node>, b: Seq<Node>, names: Seq<Seq<char>>)
    ensures
        nodes_outside(a + b, names) == nodes_outside(a, names) + nodes_outside(b, names),
    decreases b.len(),
{
    if b.len() == 0 {
        assert(a + b =~= a);
        assert(nodes_outside(a, names) + nodes_outside(b, names) =~= nodes_outside(a, names));
    } else {
        lemma_outside_concat(a, b.drop_last(), names);
        assert((a + b).drop_last() =~= a + b.drop_last());
        assert((a + b).last() == b.last());
        if !names.contains(b.last().name@) {
            assert(nodes_outside(a, names) + nodes_outside(b, names) =~= (nodes_outside(a, names)
                + nodes_outside(b.drop_last(), names)).push(b.last()));
        }
    }
}

proof fn lemma_outside_all_known(bl: Seq<Node>, names: Seq<Seq<char>>)
    requires
        forall|i: int| 0 <= i < bl.len() ==> names.contains(#[trigger] bl[i].name@),
    ensures
        nodes_outside(bl, names).len() == 0,
    decreases bl.len(),
{
    if bl.len() > 0 {
        let p = bl.drop_last();
        assert forall|i: int| 0 <= i < p.len() implies names.contains(#[trigger] p[i].name@) by {
            assert(bl[i].name@ == p[i].name@);
        }
        lemma_outside_all_known(p, names);
        assert(names.contains(bl[bl.len() - 1].name@));
    }
}

/// A block is closed under its schema: once `repeated` has taken every schema
/// name from a block whose directives all carry one of them, nothing is left
/// and `exhaust` succeeds; with one more directive of another name anywhere in
/// the block, that directive alone is left, and `exhaust` cites it.
pub proof fn lemma_closed_schema(bl: Seq<Node>, names: Seq<Seq<char>>, extra: Node, pos: int)
    requires
        forall|i: int| 0 <= i < bl.len() ==> names.contains(#[trigger] bl[i].name@),
        !names.contains(extra.name@),
        0 <= pos <= bl.len(),
    ensures
        left_after_repeated(bl, names).len() == 0,
        left_after_repeated(bl.insert(pos, extra), names) == seq![extra],
{
    lemma_left_after(bl, names);
    lemma_left_after(bl.insert(pos, extra), names);
    lemma_outside_all_known(bl, names);
    let a = bl.subrange(0, pos);
    let b = bl.subrange(pos, bl.len() as int);
    assert(bl.insert(pos, extra) =~= a + seq![extra] + b);
    assert forall|i: int| 0 <= i < a.len() implies names.contains(#[trigger] a[i].name@) by {
        assert(a[i] == bl[i]);
    }
    assert forall|i: int| 0 <= i < b.len() implies names.contains(#[trigger] b[i].name@) by {
        assert(b[i] == bl[i + pos]);
    }
    lemma_outside_all_known(a, names);
    lemma_outside_all_known(b, names);
    lemma_outside_concat(a + seq![extra], b, names);
    lemma_outside_concat(a, seq![extra], names);
    assert(seq![extra].drop_last() =~= Seq::<Node>::empty());
    assert(seq![extra].last() == extra);
    assert(nodes_outside(Seq::<Node>::empty(), names) == Seq::<Node>::empty());
    assert(Seq::<Node>::empty().push(extra) =~= seq![extra]);
    assert(nodes_outside(seq![extra], names) =~= seq![extra]);
    assert(nodes_outside(a, names) =~= Seq::<Node>::empty());
    assert(nodes_outside(b, names) =~= Seq::<Node>::empty());
    assert(nodes_outside(bl.insert(pos, extra), names) =~= seq![extra]);
}

} // verus!
