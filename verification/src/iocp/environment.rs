//! The environment of a new process: names are compared without ASCII case, a later
//! setting replaces an earlier one, and the block is sorted by folded name.
use crate::types::{invalid, Error, ErrorKind};
use vstd::prelude::*;

verus! {

/// ASCII upper case of one byte.
pub open spec fn upper(b: u8) -> u8 {
    if 97 <= b <= 122 {
        (b - 32) as u8
    } else {
        b
    }
}

/// A name as it is compared.
pub open spec fn folded(name: Seq<u8>) -> Seq<u8> {
    name.map_values(|b: u8| upper(b))
}

/// Lexicographic order of byte strings.
pub open spec fn precedes(a: Seq<u8>, b: Seq<u8>) -> bool
    decreases a.len(),
{
    if b.len() == 0 {
        false
    } else if a.len() == 0 {
        true
    } else if a[0] != b[0] {
        a[0] < b[0]
    } else {
        precedes(a.drop_first(), b.drop_first())
    }
}

proof fn lemma_precedes_irreflexive(a: Seq<u8>)
    ensures
        !precedes(a, a),
    decreases a.len(),
{
    if a.len() > 0 {
        lemma_precedes_irreflexive(a.drop_first());
    }
}

proof fn lemma_precedes_total(a: Seq<u8>, b: Seq<u8>)
    ensures
        precedes(a, b) || precedes(b, a) || a == b,
    decreases a.len(),
{
    if a.len() > 0 && b.len() > 0 && a[0] == b[0] {
        lemma_precedes_total(a.drop_first(), b.drop_first());
        if a.drop_first() == b.drop_first() {
            assert(a =~= seq![a[0]] + a.drop_first());
            assert(b =~= seq![b[0]] + b.drop_first());
        }
    } else if a.len() == 0 && b.len() == 0 {
        assert(a =~= b);
    }
}

proof fn lemma_precedes_transitive(a: Seq<u8>, b: Seq<u8>, c: Seq<u8>)
    requires
        precedes(a, b),
        precedes(b, c),
    ensures
        precedes(a, c),
    decreases a.len(),
{
    if a.len() > 0 && b.len() > 0 && c.len() > 0 && a[0] == b[0] && b[0] == c[0] {
        lemma_precedes_transitive(a.drop_first(), b.drop_first(), c.drop_first());
    }
}

/// How two names compare.
#[derive(Clone, Copy, Debug, PartialEq, Eq, Structural)]
pub enum Rank {
    Before,
    Same,
    After,
}

fn rank(a: &Vec<u8>, b: &Vec<u8>) -> (r: Rank)
    ensures
        match r {
            Rank::Before => precedes(a@, b@),
            Rank::Same => a@ == b@,
            Rank::After => precedes(b@, a@),
        },
{
    let mut i: usize = 0;
    assert(a@.skip(0) =~= a@);
    assert(b@.skip(0) =~= b@);
    while i < a.len() && i < b.len()
        invariant
            i <= a@.len(),
            i <= b@.len(),
            a@.take(i as int) == b@.take(i as int),
            precedes(a@, b@) == precedes(a@.skip(i as int), b@.skip(i as int)),
            precedes(b@, a@) == precedes(b@.skip(i as int), a@.skip(i as int)),
        decreases a@.len() - i,
    {
        assert(a@.skip(i as int).drop_first() =~= a@.skip(i + 1));
        assert(b@.skip(i as int).drop_first() =~= b@.skip(i + 1));
        if a[i] < b[i] {
            return Rank::Before;
        }
        if b[i] < a[i] {
            return Rank::After;
        }
        assert(a@.take(i + 1) =~= a@.take(i as int).push(a@[i as int]));
        assert(b@.take(i + 1) =~= b@.take(i as int).push(b@[i as int]));
        i = i + 1;
    }
    if i < b.len() {
        return Rank::Before;
    }
    if i < a.len() {
        return Rank::After;
    }
    assert(a@ =~= a@.take(i as int));
    assert(b@ =~= b@.take(i as int));
    Rank::Same
}

/// One variable.
#[derive(Debug)]
pub struct Variable {
    pub folded: Vec<u8>,
    pub name: Vec<u8>,
    pub value: Vec<u8>,
}

/// Variables sorted by folded name.
#[derive(Debug)]
pub struct Environment {
    vars: Vec<Variable>,
}

/// Strictly sorted by folded name.
pub open spec fn sorted(vars: Seq<Variable>) -> bool {
    forall|j: int, k: int|
        0 <= j < k < vars.len() ==> precedes(
            (#[trigger] vars[j]).folded@,
            (#[trigger] vars[k]).folded@,
        )
}

/// The variable with this folded name stands at `k`.
pub open spec fn named(vars: Seq<Variable>, name: Seq<u8>, k: int) -> bool {
    0 <= k < vars.len() && vars[k].folded@ == name
}

impl View for Environment {
    type V = Map<Seq<u8>, (Seq<u8>, Seq<u8>)>;

    closed spec fn view(&self) -> Map<Seq<u8>, (Seq<u8>, Seq<u8>)> {
        Map::new(
            |name: Seq<u8>| exists|k: int| named(self.vars@, name, k),
            |name: Seq<u8>|
                {
                    let k = choose|k: int| named(self.vars@, name, k);
                    (self.vars@[k].name@, self.vars@[k].value@)
                },
        )
    }
}

impl Environment {
    pub closed spec fn wf(&self) -> bool {
        &&& sorted(self.vars@)
        &&& forall|k: int|
            0 <= k < self.vars@.len() ==> (#[trigger] self.vars@[k]).folded@ == folded(
                self.vars@[k].name@,
            )
    }

    /// The variables in block order.
    pub closed spec fn list(&self) -> Seq<Variable> {
        self.vars@
    }

    /// The block is strictly sorted by folded name, and what it lists was set.
    pub proof fn law_listed_in_order(&self, k: int)
        requires
            self.wf(),
            0 <= k < self.list().len(),
        ensures
            sorted(self.list()),
            self@.contains_key(self.list()[k].folded@),
            self@[self.list()[k].folded@] == (self.list()[k].name@, self.list()[k].value@),
    {
        self.lemma_lookup(k);
    }

    /// Every setting is listed, once: the block holds exactly the settings.
    pub proof fn law_every_setting_is_listed(&self, name: Seq<u8>)
        requires
            self.wf(),
            self@.contains_key(name),
        ensures
            exists|k: int|
                0 <= k < self.list().len() && (#[trigger] self.list()[k]).folded@ == name
                    && self@[name] == (self.list()[k].name@, self.list()[k].value@),
            forall|j: int, k: int|
                0 <= j < self.list().len() && 0 <= k < self.list().len() && (
                #[trigger] self.list()[j]).folded@ == name && (#[trigger] self.list()[k]).folded@
                    == name ==> j == k,
    {
        let c = choose|c: int| named(self.vars@, name, c);
        self.lemma_lookup(c);
        assert(self.list()[c].folded@ == name);
        assert forall|j: int, k: int|
            0 <= j < self.list().len() && 0 <= k < self.list().len() && (
            #[trigger] self.list()[j]).folded@ == name && (#[trigger] self.list()[k]).folded@
                == name implies j == k by {
            lemma_precedes_irreflexive(name);
            if j < k {
                assert(precedes(self.vars@[j].folded@, self.vars@[k].folded@));
            } else if k < j {
                assert(precedes(self.vars@[k].folded@, self.vars@[j].folded@));
            }
        }
    }

    proof fn lemma_lookup(&self, k: int)
        requires
            sorted(self.vars@),
            0 <= k < self.vars@.len(),
        ensures
            self@.contains_key(self.vars@[k].folded@),
            self@[self.vars@[k].folded@] == (self.vars@[k].name@, self.vars@[k].value@),
    {
        let name = self.vars@[k].folded@;
        assert(named(self.vars@, name, k));
        let c = choose|c: int| named(self.vars@, name, c);
        lemma_precedes_irreflexive(name);
        if c < k {
            assert(precedes(self.vars@[c].folded@, self.vars@[k].folded@));
        } else if k < c {
            assert(precedes(self.vars@[k].folded@, self.vars@[c].folded@));
        }
    }

    /// No variables.
    pub fn new() -> (env: Self)
        ensures
            env.wf(),
            env@ == Map::<Seq<u8>, (Seq<u8>, Seq<u8>)>::empty(),
            env.list().len() == 0,
    {
        let env = Environment { vars: Vec::new() };
        assert(env@ =~= Map::<Seq<u8>, (Seq<u8>, Seq<u8>)>::empty());
        env
    }

    /// Set a variable, replacing one of the same name in any case.
    pub fn set(&mut self, name: Vec<u8>, value: Vec<u8>)
        requires
            old(self).wf(),
        ensures
            final(self).wf(),
            final(self)@ == old(self)@.insert(folded(name@), (name@, value@)),
    {
        let key = fold(&name);
        let ghost before = self.vars@;
        let ghost env = *self;
        let ghost setting = (name@, value@);
        let ghost k0 = key@;
        let mut i: usize = 0;
        while i < self.vars.len()
            invariant
                i <= self.vars@.len(),
                *self == env,
                env == *old(self),
                before == env.vars@,
                env.wf(),
                key@ == k0,
                k0 == folded(name@),
                setting == (name@, value@),
                forall|k: int| 0 <= k < i ==> precedes((#[trigger] before[k]).folded@, k0),
            decreases self.vars@.len() - i,
        {
            match rank(&self.vars[i].folded, &key) {
                Rank::Before => {},
                Rank::Same => {
                    self.vars[i] = Variable { folded: key, name, value };
                    proof {
                        let after = self.vars@;
                        assert forall|j: int| 0 <= j < after.len() implies (
                        #[trigger] after[j]).folded@ == before[j].folded@ by {}
                        assert(sorted(after)) by {
                            assert forall|a: int, b: int| 0 <= a < b < after.len() implies precedes(
                                (#[trigger] after[a]).folded@,
                                (#[trigger] after[b]).folded@,
                            ) by {
                                assert(precedes(before[a].folded@, before[b].folded@));
                            }
                        }
                        assert forall|n: Seq<u8>| #[trigger] self@.contains_key(n)
                            <==> env@.contains_key(n) || n == k0 by {
                            if self@.contains_key(n) {
                                let c = choose|c: int| named(after, n, c);
                                assert(named(before, n, c));
                            }
                            if env@.contains_key(n) {
                                let c = choose|c: int| named(before, n, c);
                                assert(named(after, n, c));
                            }
                            assert(named(after, k0, i as int));
                        }
                        assert forall|n: Seq<u8>| #[trigger] self@.contains_key(
                            n,
                        ) implies self@[n] == env@.insert(k0, setting)[n] by {
                            let c = choose|c: int| named(after, n, c);
                            self.lemma_lookup(c);
                            env.lemma_lookup(c);
                            if c != i {
                                lemma_precedes_irreflexive(k0);
                                if c < i {
                                    assert(precedes(before[c].folded@, before[i as int].folded@));
                                } else {
                                    assert(precedes(before[i as int].folded@, before[c].folded@));
                                }
                            }
                        }
                        assert(self@ =~= env@.insert(k0, setting));
                    }
                    return ;
                },
                Rank::After => {
                    self.vars.insert(i, Variable { folded: key, name, value });
                    proof {
                        lemma_inserted(env, *self, i as int, k0, setting);
                    }
                    return ;
                },
            }
            i = i + 1;
        }
        self.vars.push(Variable { folded: key, name, value });
        proof {
            assert(self.vars@ =~= before.insert(before.len() as int, self.vars@.last()));
            lemma_inserted(env, *self, before.len() as int, k0, setting);
        }
    }

    /// Set a variable that a caller asked for: its name may not be empty, and neither a
    /// zero nor an equals sign can stand in it.
    pub fn set_checked(&mut self, name: Vec<u8>, value: Vec<u8>) -> (done: Result<(), Error>)
        requires
            old(self).wf(),
        ensures
            final(self).wf(),
            if name@.len() == 0 || name@.contains(0) || name@.contains(61) {
                done == Err::<(), Error>(Error::plain(ErrorKind::InvalidInput)) && final(self)@
                    == old(self)@
            } else {
                done is Ok && final(self)@ == old(self)@.insert(folded(name@), (name@, value@))
            },
    {
        if name.len() == 0 {
            return Err(invalid());
        }
        let mut i: usize = 0;
        while i < name.len()
            invariant
                i <= name@.len(),
                *self == *old(self),
                self.wf(),
                forall|k: int| 0 <= k < i ==> name@[k] != 0 && name@[k] != 61,
            decreases name@.len() - i,
        {
            if name[i] == 0 || name[i] == 61 {
                assert(name@.contains(name@[i as int]));
                return Err(invalid());
            }
            i = i + 1;
        }
        assert(!name@.contains(0) && !name@.contains(61));
        self.set(name, value);
        Ok(())
    }

    /// How many variables there are.
    pub fn len(&self) -> (n: usize)
        ensures
            n == self.list().len(),
    {
        self.vars.len()
    }

    /// The variable at a place of the block.
    pub fn get(&self, i: usize) -> (var: &Variable)
        requires
            i < self.list().len(),
        ensures
            *var == self.list()[i as int],
    {
        &self.vars[i]
    }
}

proof fn lemma_inserted(
    env: Environment,
    after: Environment,
    at: int,
    key: Seq<u8>,
    setting: (Seq<u8>, Seq<u8>),
)
    requires
        env.wf(),
        0 <= at <= env.vars@.len(),
        after.vars@.len() == env.vars@.len() + 1,
        after.vars@ == env.vars@.insert(at, after.vars@[at]),
        after.vars@[at].folded@ == key,
        (after.vars@[at].name@, after.vars@[at].value@) == setting,
        key == folded(setting.0),
        forall|k: int| 0 <= k < at ==> precedes((#[trigger] env.vars@[k]).folded@, key),
        at < env.vars@.len() ==> precedes(key, env.vars@[at].folded@),
    ensures
        after.wf(),
        after@ == env@.insert(key, setting),
{
    let before = env.vars@;
    let vars = after.vars@;
    let from = |j: int| if j < at { j } else { j - 1 };
    assert forall|j: int| 0 <= j < vars.len() && j != at implies #[trigger] vars[j]
        == before[from(j)] by {}
    assert forall|k: int| at <= k < before.len() implies precedes(
        key,
        (#[trigger] before[k]).folded@,
    ) by {
        if k > at {
            assert(precedes(before[at].folded@, before[k].folded@));
            lemma_precedes_transitive(key, before[at].folded@, before[k].folded@);
        }
    }
    assert forall|a: int, b: int| 0 <= a < b < vars.len() implies precedes(
        (#[trigger] vars[a]).folded@,
        (#[trigger] vars[b]).folded@,
    ) by {
        if a != at && b != at {
            assert(precedes(before[from(a)].folded@, before[from(b)].folded@));
        } else if a == at {
            assert(vars[b] == before[from(b)]);
        } else {
            assert(vars[a] == before[from(a)]);
        }
    }
    assert forall|k: int| 0 <= k < vars.len() implies (#[trigger] vars[k]).folded@ == folded(
        vars[k].name@,
    ) by {
        if k != at {
            assert(vars[k] == before[from(k)]);
        }
    }
    lemma_precedes_irreflexive(key);
    assert forall|n: Seq<u8>| #[trigger] after@.contains_key(n) <==> env@.contains_key(n) || n
        == key by {
        if after@.contains_key(n) && n != key {
            let c = choose|c: int| named(vars, n, c);
            assert(vars[c] == before[from(c)]);
            assert(named(before, n, from(c)));
        }
        if env@.contains_key(n) {
            let c = choose|c: int| named(before, n, c);
            let to = if c < at { c } else { c + 1 };
            assert(vars[to] == before[c]);
            assert(named(vars, n, to));
        }
        assert(named(vars, key, at));
    }
    assert forall|n: Seq<u8>| #[trigger] after@.contains_key(n) implies after@[n] == env@.insert(
        key,
        setting,
    )[n] by {
        let c = choose|c: int| named(vars, n, c);
        after.lemma_lookup(c);
        if c != at {
            assert(vars[c] == before[from(c)]);
            env.lemma_lookup(from(c));
        }
    }
    assert(after@ =~= env@.insert(key, setting));
}

fn fold(name: &Vec<u8>) -> (key: Vec<u8>)
    ensures
        key@ == folded(name@),
{
    let mut key: Vec<u8> = Vec::new();
    let mut i: usize = 0;
    while i < name.len()
        invariant
            i <= name@.len(),
            key@ == folded(name@).take(i as int),
        decreases name@.len() - i,
    {
        let b: u8 = name[i];
        key.push(
            if 97 <= b && b <= 122 {
                b - 32
            } else {
                b
            },
        );
        assert(key@ =~= folded(name@).take(i + 1));
        i = i + 1;
    }
    assert(folded(name@).take(i as int) =~= folded(name@));
    key
}

/// The block of name and value pairs in wide characters: `name=value` and a zero each,
/// then a zero; an empty environment is two zeros.
pub open spec fn block_of(entries: Seq<(Vec<u16>, Vec<u16>)>) -> Seq<u16> {
    if entries.len() == 0 {
        seq![0u16, 0u16]
    } else {
        pairs(entries) + seq![0u16]
    }
}

pub open spec fn pairs(entries: Seq<(Vec<u16>, Vec<u16>)>) -> Seq<u16>
    decreases entries.len(),
{
    if entries.len() == 0 {
        Seq::empty()
    } else {
        let (name, value) = entries.last();
        pairs(entries.drop_last()) + name@ + seq![61u16] + value@ + seq![0u16]
    }
}

fn append(out: &mut Vec<u16>, text: &Vec<u16>) -> (clean: bool)
    ensures
        clean == !text@.contains(0),
        clean ==> final(out)@ == old(out)@ + text@,
{
    let ghost before = out@;
    let mut i: usize = 0;
    assert(before + text@.take(0) =~= before);
    while i < text.len()
        invariant
            i <= text@.len(),
            out@ == before + text@.take(i as int),
            before == old(out)@,
            forall|k: int| 0 <= k < i ==> text@[k] != 0,
        decreases text@.len() - i,
    {
        if text[i] == 0 {
            assert(text@.contains(text@[i as int]));
            return false;
        }
        out.push(text[i]);
        assert(out@ =~= before + text@.take(i + 1));
        i = i + 1;
    }
    assert(text@.take(i as int) =~= text@);
    true
}

/// Build the environment block. A zero inside a name or a value is refused.
pub fn block(entries: &Vec<(Vec<u16>, Vec<u16>)>) -> (text: Result<Vec<u16>, Error>)
    ensures
        match text {
            Ok(t) => t@ == block_of(entries@),
            Err(e) => e == Error::plain(ErrorKind::InvalidInput),
        },
        text is Ok <==> forall|k: int|
            0 <= k < entries@.len() ==> !(#[trigger] entries@[k]).0@.contains(0)
                && !entries@[k].1@.contains(0),
{
    let mut text: Vec<u16> = Vec::new();
    let mut i: usize = 0;
    assert(entries@.take(0) =~= Seq::<(Vec<u16>, Vec<u16>)>::empty());
    while i < entries.len()
        invariant
            i <= entries@.len(),
            text@ == pairs(entries@.take(i as int)),
            i > 0 ==> text@.len() > 0,
            forall|k: int|
                0 <= k < i ==> !(#[trigger] entries@[k]).0@.contains(0) && !entries@[k].1@.contains(
                    0,
                ),
        decreases entries@.len() - i,
    {
        let ghost held = text@;
        proof {
            assert(entries@.take(i + 1).drop_last() =~= entries@.take(i as int));
            assert(entries@.take(i + 1).last() == entries@[i as int]);
        }
        if !append(&mut text, &entries[i].0) {
            return Err(invalid());
        }
        text.push(61);
        if !append(&mut text, &entries[i].1) {
            return Err(invalid());
        }
        text.push(0);
        assert(text@ =~= held + entries@[i as int].0@ + seq![61u16] + entries@[i as int].1@
            + seq![0u16]);
        i = i + 1;
    }
    assert(entries@.take(i as int) =~= entries@);
    if text.len() == 0 {
        text.push(0);
    }
    text.push(0);
    assert(text@ =~= block_of(entries@));
    Ok(text)
}

/// Names are the same when they differ only in the case of English letters.
pub proof fn law_case_does_not_tell_names_apart(a: Seq<u8>, b: Seq<u8>)
    ensures
        folded(a) == folded(b) <==> a.len() == b.len() && forall|i: int|
            0 <= i < a.len() ==> {
                ||| #[trigger] a[i] == b[i]
                ||| 65 <= a[i] <= 90 && b[i] == a[i] + 32
                ||| 65 <= b[i] <= 90 && a[i] == b[i] + 32
            },
{
    if folded(a) == folded(b) {
        assert(folded(a).len() == a.len() && folded(b).len() == b.len());
        assert forall|i: int| 0 <= i < a.len() implies {
            ||| #[trigger] a[i] == b[i]
            ||| 65 <= a[i] <= 90 && b[i] == a[i] + 32
            ||| 65 <= b[i] <= 90 && a[i] == b[i] + 32
        } by {
            assert(folded(a)[i] == upper(a[i]));
            assert(folded(b)[i] == upper(b[i]));
        }
    }
    if a.len() == b.len() && forall|i: int|
        0 <= i < a.len() ==> {
            ||| #[trigger] a[i] == b[i]
            ||| 65 <= a[i] <= 90 && b[i] == a[i] + 32
            ||| 65 <= b[i] <= 90 && a[i] == b[i] + 32
        } {
        assert forall|i: int| 0 <= i < a.len() implies folded(a)[i] == folded(b)[i] by {
            assert(a[i] == b[i] || true);
        }
        assert(folded(a) =~= folded(b));
    }
}

/// Of two different names exactly one comes first: the one that is the start of the other, or that
/// has the smaller byte where they first differ.
pub proof fn law_names_are_ordered(a: Seq<u8>, b: Seq<u8>, i: int)
    requires
        0 <= i <= a.len(),
        i <= b.len(),
        a.take(i) == b.take(i),
    ensures
        i == a.len() && i < b.len() ==> precedes(a, b) && !precedes(b, a),
        i < a.len() && i < b.len() && a[i] < b[i] ==> precedes(a, b) && !precedes(b, a),
        a == b ==> !precedes(a, b),
    decreases i,
{
    if i > 0 {
        assert(a[0] == a.take(i)[0]);
        assert(b[0] == b.take(i)[0]);
        let (x, y) = (a.drop_first(), b.drop_first());
        assert(x.take(i - 1) =~= a.take(i).drop_first());
        assert(y.take(i - 1) =~= b.take(i).drop_first());
        law_names_are_ordered(x, y, i - 1);
    }
    if a == b {
        lemma_precedes_irreflexive(a);
    }
}

} // verus!
