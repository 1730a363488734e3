//! The environment block of a new process, from what a caller asks for.
use crate::iocp::environment::{block, folded, pairs, Environment, Variable};
use crate::types::{invalid, Error, ErrorKind};
use vstd::prelude::*;

verus! {

/// A variable as a host names it: bytes that hold code points of 16-bit text, and halves of
/// pairs that stand alone.
pub type Setting = (Vec<u8>, Vec<u8>);

/// How many bytes the code point that starts with `first` takes.
pub open spec fn width(first: u8) -> int {
    if first < 0x80 {
        1
    } else if first < 0xe0 {
        2
    } else if first < 0xf0 {
        3
    } else {
        4
    }
}

/// The code point that bytes start with.
pub open spec fn point(bytes: Seq<u8>) -> int {
    if width(bytes[0]) == 1 {
        bytes[0] as int
    } else if width(bytes[0]) == 2 {
        (bytes[0] % 32) * 64 + bytes[1] % 64
    } else if width(bytes[0]) == 3 {
        (bytes[0] % 16) * 4096 + (bytes[1] % 64) * 64 + bytes[2] % 64
    } else {
        (bytes[0] % 8) * 262144 + (bytes[1] % 64) * 4096 + (bytes[2] % 64) * 64 + bytes[3] % 64
    }
}

/// A code point as 16-bit units: one, or a pair.
pub open spec fn units(point: int) -> Seq<u16> {
    if point < 0x10000 {
        seq![point as u16]
    } else {
        seq![
            (0xd800 + ((point - 0x10000) / 1024) % 1024) as u16,
            (0xdc00 + (point - 0x10000) % 1024) as u16,
        ]
    }
}

/// Bytes as 16-bit text. Bytes that end inside a code point end the text before it.
pub open spec fn wide_of(bytes: Seq<u8>) -> Seq<u16>
    decreases bytes.len(),
{
    if bytes.len() == 0 || bytes.len() < width(bytes[0]) {
        Seq::empty()
    } else {
        units(point(bytes)) + wide_of(bytes.skip(width(bytes[0])))
    }
}

/// Turn bytes into 16-bit text.
pub fn widen(bytes: &Vec<u8>) -> (text: Vec<u16>)
    ensures
        text@ == wide_of(bytes@),
{
    let mut text: Vec<u16> = Vec::new();
    let mut i: usize = 0;
    assert(bytes@.skip(0) =~= bytes@);
    assert(text@ + wide_of(bytes@) =~= wide_of(bytes@));
    while i < bytes.len()
        invariant
            i <= bytes@.len(),
            text@ + wide_of(bytes@.skip(i as int)) == wide_of(bytes@),
        decreases bytes@.len() - i,
    {
        let first: u8 = bytes[i];
        let n: usize = if first < 0x80 {
            1
        } else if first < 0xe0 {
            2
        } else if first < 0xf0 {
            3
        } else {
            4
        };
        let ghost rest = bytes@.skip(i as int);
        let ghost held = text@;
        if bytes.len() - i < n {
            assert(text@ + Seq::<u16>::empty() =~= text@);
            return text;
        }
        let code: u32 = if n == 1 {
            first as u32
        } else if n == 2 {
            (first % 32) as u32 * 64 + (bytes[i + 1] % 64) as u32
        } else if n == 3 {
            (first % 16) as u32 * 4096 + (bytes[i + 1] % 64) as u32 * 64 + (bytes[i + 2] % 64)
                as u32
        } else {
            (first % 8) as u32 * 262144 + (bytes[i + 1] % 64) as u32 * 4096 + (bytes[i + 2] % 64)
                as u32 * 64 + (bytes[i + 3] % 64) as u32
        };
        assert(code == point(rest));
        if code < 0x10000 {
            text.push(code as u16);
        } else {
            let over: u32 = code - 0x10000;
            text.push((0xd800 + (over / 1024) % 1024) as u16);
            text.push((0xdc00 + over % 1024) as u16);
        }
        proof {
            assert(text@ =~= held + units(point(rest)));
            assert(rest.skip(n as int) =~= bytes@.skip(i + n));
            assert(text@ + wide_of(bytes@.skip(i + n)) =~= held + wide_of(rest));
        }
        i = i + n;
    }
    assert(bytes@.skip(i as int).len() == 0);
    assert(text@ + wide_of(bytes@.skip(i as int)) =~= text@);
    text
}

/// The settings of a map after these, in order.
pub open spec fn merged(
    map: Map<Seq<u8>, (Seq<u8>, Seq<u8>)>,
    settings: Seq<Setting>,
) -> Map<Seq<u8>, (Seq<u8>, Seq<u8>)>
    decreases settings.len(),
{
    if settings.len() == 0 {
        map
    } else {
        let (name, value) = settings.last();
        merged(map, settings.drop_last()).insert(folded(name@), (name@, value@))
    }
}

/// A name that can be set.
pub open spec fn settable(name: Seq<u8>) -> bool {
    name.len() > 0 && !name.contains(0) && !name.contains(61)
}

/// The variables that a new process gets: those of this process, unless they are cleared, and
/// over them the given ones. A later setting replaces an earlier one of the same name in any
/// case, with its spelling. A name that cannot be set is refused.
pub fn environment(clear: bool, inherited: &Vec<Setting>, settings: &Vec<Setting>) -> (env: Result<
    Environment,
    Error,
>)
    ensures
        match env {
            Ok(e) => {
                let none = Map::<Seq<u8>, (Seq<u8>, Seq<u8>)>::empty();
                &&& e.wf()
                &&& forall|k: int|
                    0 <= k < settings@.len() ==> settable((#[trigger] settings@[k]).0@)
                &&& e@ == merged(
                    if clear {
                        none
                    } else {
                        merged(none, inherited@)
                    },
                    settings@,
                )
            },
            Err(e) => e == Error::plain(ErrorKind::InvalidInput) && exists|k: int|
                0 <= k < settings@.len() && !settable((#[trigger] settings@[k]).0@),
        },
{
    let mut env = Environment::new();
    let ghost none = env@;
    if !clear {
        let mut i: usize = 0;
        assert(inherited@.take(0) =~= Seq::<Setting>::empty());
        while i < inherited.len()
            invariant
                i <= inherited@.len(),
                env.wf(),
                env@ == merged(none, inherited@.take(i as int)),
            decreases inherited@.len() - i,
        {
            let name = inherited[i].0.clone();
            let value = inherited[i].1.clone();
            proof {
                assert(name@ =~= inherited@[i as int].0@);
                assert(value@ =~= inherited@[i as int].1@);
                assert(inherited@.take(i + 1).drop_last() =~= inherited@.take(i as int));
            }
            env.set(name, value);
            i = i + 1;
        }
        assert(inherited@.take(i as int) =~= inherited@);
    }
    let ghost base = env@;
    let mut i: usize = 0;
    assert(settings@.take(0) =~= Seq::<Setting>::empty());
    while i < settings.len()
        invariant
            i <= settings@.len(),
            env.wf(),
            env@ == merged(base, settings@.take(i as int)),
            forall|k: int| 0 <= k < i ==> settable((#[trigger] settings@[k]).0@),
        decreases settings@.len() - i,
    {
        let name = settings[i].0.clone();
        let value = settings[i].1.clone();
        proof {
            assert(name@ =~= settings@[i as int].0@);
            assert(value@ =~= settings@[i as int].1@);
            assert(settings@.take(i + 1).drop_last() =~= settings@.take(i as int));
        }
        if let Err(e) = env.set_checked(name, value) {
            assert(!settable(settings@[i as int].0@));
            return Err(e);
        }
        i = i + 1;
    }
    assert(settings@.take(i as int) =~= settings@);
    Ok(env)
}

/// The entries of the first variables of a block.
pub open spec fn entries_of(vars: Seq<Variable>) -> Seq<u16>
    decreases vars.len(),
{
    if vars.len() == 0 {
        Seq::empty()
    } else {
        entries_of(vars.drop_last()) + wide_of(vars.last().name@) + seq![61u16] + wide_of(
            vars.last().value@,
        ) + seq![0u16]
    }
}

/// The block of these variables: `name=value` and a zero each, then a zero; an empty one is
/// two zeros.
pub open spec fn block_text(vars: Seq<Variable>) -> Seq<u16> {
    if vars.len() == 0 {
        seq![0u16, 0u16]
    } else {
        entries_of(vars) + seq![0u16]
    }
}

proof fn lemma_entries(vars: Seq<Variable>, entries: Seq<(Vec<u16>, Vec<u16>)>)
    requires
        entries.len() == vars.len(),
        forall|k: int|
            0 <= k < vars.len() ==> (#[trigger] entries[k]).0@ == wide_of(vars[k].name@)
                && entries[k].1@ == wide_of(vars[k].value@),
    ensures
        pairs(entries) == entries_of(vars),
    decreases vars.len(),
{
    if vars.len() > 0 {
        lemma_entries(vars.drop_last(), entries.drop_last());
    }
}

/// The block that a new process is given. A zero inside a name or a value is refused.
pub fn environment_block(env: &Environment) -> (text: Result<Vec<u16>, Error>)
    ensures
        match text {
            Ok(t) => t@ == block_text(env.list()),
            Err(e) => e == Error::plain(ErrorKind::InvalidInput),
        },
        text is Ok <==> forall|k: int|
            0 <= k < env.list().len() ==> !wide_of((#[trigger] env.list()[k]).name@).contains(0)
                && !wide_of(env.list()[k].value@).contains(0),
{
    let mut entries: Vec<(Vec<u16>, Vec<u16>)> = Vec::new();
    let n: usize = env.len();
    let mut i: usize = 0;
    while i < n
        invariant
            i <= n,
            n == env.list().len(),
            entries@.len() == i,
            forall|k: int|
                0 <= k < i ==> (#[trigger] entries@[k]).0@ == wide_of(env.list()[k].name@)
                    && entries@[k].1@ == wide_of(env.list()[k].value@),
        decreases n - i,
    {
        let var = env.get(i);
        entries.push((widen(&var.name), widen(&var.value)));
        i = i + 1;
    }
    proof {
        lemma_entries(env.list(), entries@);
        assert forall|k: int| 0 <= k < n implies (#[trigger] entries@[k]).0@ == wide_of(
            env.list()[k].name@,
        ) && entries@[k].1@ == wide_of(env.list()[k].value@) by {}
    }
    let text = block(&entries);
    proof {
        if text is Ok {
            assert forall|k: int| 0 <= k < env.list().len() implies !wide_of(
                (#[trigger] env.list()[k]).name@,
            ).contains(0) && !wide_of(env.list()[k].value@).contains(0) by {
                assert(!entries@[k].0@.contains(0));
            }
        } else if forall|k: int|
            0 <= k < env.list().len() ==> !wide_of((#[trigger] env.list()[k]).name@).contains(0)
                && !wide_of(env.list()[k].value@).contains(0) {
            assert forall|k: int|
                0 <= k < entries@.len() implies !(#[trigger] entries@[k]).0@.contains(0)
                && !entries@[k].1@.contains(0) by {
                assert(!wide_of(env.list()[k].name@).contains(0));
            }
        }
    }
    text
}

/// The last setting of a name is the one that counts, in its spelling; other names do not
/// touch it.
pub proof fn law_last_setting_counts(
    map: Map<Seq<u8>, (Seq<u8>, Seq<u8>)>,
    settings: Seq<Setting>,
    i: int,
)
    requires
        0 <= i < settings.len(),
        forall|k: int|
            i < k < settings.len() ==> folded((#[trigger] settings[k]).0@) != folded(
                settings[i].0@,
            ),
    ensures
        merged(map, settings).contains_key(folded(settings[i].0@)),
        merged(map, settings)[folded(settings[i].0@)] == (settings[i].0@, settings[i].1@),
    decreases settings.len(),
{
    if i < settings.len() - 1 {
        assert(settings.drop_last()[i] == settings[i]);
        assert forall|k: int| i < k < settings.drop_last().len() implies folded(
            (#[trigger] settings.drop_last()[k]).0@,
        ) != folded(settings.drop_last()[i].0@) by {
            assert(settings[k] == settings.drop_last()[k]);
        }
        law_last_setting_counts(map, settings.drop_last(), i);
        assert(folded(settings[settings.len() - 1].0@) != folded(settings[i].0@));
    }
}

/// Text is taken character by character: one byte stands for itself, and more are the digits of the
/// character to the base of sixty-four, the highest first, each behind its mark.
pub proof fn law_bytes_are_characters(bytes: Seq<u8>, a: int, b: int, c: int, d: int)
    requires
        bytes.len() >= 4,
        0 <= b < 64,
        0 <= c < 64,
        0 <= d < 64,
    ensures
        0 <= a < 0x80 && bytes[0] == a ==> width(bytes[0]) == 1 && point(bytes) == a,
        0 <= a < 32 && bytes[0] == 0xc0 + a && bytes[1] == 0x80 + b ==> width(bytes[0]) == 2
            && point(bytes) == 64 * a + b,
        0 <= a < 16 && bytes[0] == 0xe0 + a && bytes[1] == 0x80 + b && bytes[2] == 0x80 + c
            ==> width(bytes[0]) == 3 && point(bytes) == 4096 * a + 64 * b + c,
        0 <= a < 8 && bytes[0] == 0xf0 + a && bytes[1] == 0x80 + b && bytes[2] == 0x80 + c
            && bytes[3] == 0x80 + d ==> width(bytes[0]) == 4 && point(bytes) == 262144 * a + 4096
            * b + 64 * c + d,
{
}

/// A character is one unit, or two where it does not fit in one: a high half and a low half, which
/// number it together.
pub proof fn law_characters_are_units(c: int)
    requires
        0 <= c < 0x11_0000,
    ensures
        c < 0x1_0000 ==> units(c).len() == 1 && units(c)[0] == c,
        c >= 0x1_0000 ==> {
            let pair = units(c);
            &&& pair.len() == 2
            &&& 0xd800 <= pair[0] <= 0xdbff
            &&& 0xdc00 <= pair[1] <= 0xdfff
            &&& 0x1_0000 + 0x400 * (pair[0] - 0xd800) + (pair[1] - 0xdc00) == c
        },
{
}

/// Text of one character after the other is taken in its order.
pub proof fn law_text_is_taken_in_order(bytes: Seq<u8>)
    requires
        bytes.len() > 0,
        bytes.len() >= width(bytes[0]),
    ensures
        wide_of(bytes) == units(point(bytes)) + wide_of(bytes.skip(width(bytes[0]))),
        wide_of(Seq::empty()).len() == 0,
{
}

/// A setting stands in the block under its own name with its own value, behind those before it, and
/// the block ends with an empty one.
pub proof fn law_settings_stand_in_the_block(vars: Seq<Variable>, k: int)
    requires
        0 <= k < vars.len(),
    ensures
        ({
            let text = block_text(vars);
            let at = entries_of(vars.take(k)).len() as int;
            let entry = wide_of(vars[k].name@) + seq![61u16] + wide_of(vars[k].value@) + seq![0u16];
            &&& at + entry.len() < text.len()
            &&& text.subrange(at, at + entry.len()) == entry
            &&& text.last() == 0
            &&& block_text(Seq::empty()) == seq![0u16, 0u16]
        }),
{
    lemma_entry(vars, k);
    let text = block_text(vars);
    let at = entries_of(vars.take(k)).len() as int;
    let entry = wide_of(vars[k].name@) + seq![61u16] + wide_of(vars[k].value@) + seq![0u16];
    assert(text.subrange(at, at + entry.len()) =~= entries_of(vars).subrange(
        at,
        at + entry.len(),
    ));
}

proof fn lemma_entry(vars: Seq<Variable>, k: int)
    requires
        0 <= k < vars.len(),
    ensures
        ({
            let at = entries_of(vars.take(k)).len() as int;
            let entry = wide_of(vars[k].name@) + seq![61u16] + wide_of(vars[k].value@) + seq![0u16];
            &&& at + entry.len() <= entries_of(vars).len()
            &&& entries_of(vars).subrange(at, at + entry.len()) == entry
        }),
    decreases vars.len(),
{
    let front = vars.drop_last();
    let at = entries_of(vars.take(k)).len() as int;
    let entry = wide_of(vars[k].name@) + seq![61u16] + wide_of(vars[k].value@) + seq![0u16];
    if k < front.len() {
        lemma_entry(front, k);
        assert(front.take(k) =~= vars.take(k));
        assert(entries_of(vars).subrange(at, at + entry.len()) =~= entries_of(front).subrange(
            at,
            at + entry.len(),
        ));
    } else {
        assert(vars.take(k) =~= front);
        assert(entries_of(vars).subrange(at, at + entry.len()) =~= entry);
    }
}

/// A name can be set when there is one, and it holds neither a zero nor an equals sign.
pub proof fn law_names_can_be_set(name: Seq<u8>)
    ensures
        settable(name) <==> name.len() > 0 && forall|k: int|
            0 <= k < name.len() ==> #[trigger] name[k] != 0 && name[k] != 61,
{
    if settable(name) {
        assert forall|k: int| 0 <= k < name.len() implies #[trigger] name[k] != 0 && name[k]
            != 61 by {
            assert(name.contains(name[k]));
        }
    }
}

/// What is not set again stays as it was.
pub proof fn law_other_settings_stay(
    map: Map<Seq<u8>, (Seq<u8>, Seq<u8>)>,
    settings: Seq<Setting>,
    name: Seq<u8>,
)
    requires
        forall|k: int| 0 <= k < settings.len() ==> folded((#[trigger] settings[k]).0@) != name,
    ensures
        merged(map, settings).contains_key(name) == map.contains_key(name),
        map.contains_key(name) ==> merged(map, settings)[name] == map[name],
    decreases settings.len(),
{
    if settings.len() > 0 {
        let front = settings.drop_last();
        assert forall|k: int| 0 <= k < front.len() implies folded((#[trigger] front[k]).0@)
            != name by {
            assert(settings[k] == front[k]);
        }
        law_other_settings_stay(map, front, name);
        assert(folded(settings[settings.len() - 1].0@) != name);
    }
}

} // verus!
