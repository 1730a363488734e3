//! Command lines that the C run-time splits back into the given arguments.
use crate::types::{invalid, Error, ErrorKind};
use vstd::prelude::*;

verus! {

pub const QUOTE: u16 = 34;

pub const BACKSLASH: u16 = 92;

pub const SPACE: u16 = 32;

/// Longest command line the system takes, terminator included.
pub const LIMIT: usize = 32767;

/// `n` backslashes.
pub open spec fn slashes(n: nat) -> Seq<u16> {
    Seq::new(n, |i: int| BACKSLASH)
}

/// An argument between quotes, after `pending` backslashes: backslashes before a quote
/// are doubled, and the quote is escaped.
pub open spec fn escaped(value: Seq<u16>, pending: nat) -> Seq<u16>
    decreases value.len(),
{
    if value.len() == 0 {
        slashes(2 * pending)
    } else if value[0] == BACKSLASH {
        escaped(value.drop_first(), pending + 1)
    } else if value[0] == QUOTE {
        slashes(2 * pending + 1) + seq![QUOTE] + escaped(value.drop_first(), 0)
    } else {
        slashes(pending) + seq![value[0]] + escaped(value.drop_first(), 0)
    }
}

/// A quoted argument.
pub open spec fn quoted(value: Seq<u16>) -> Seq<u16> {
    seq![QUOTE] + escaped(value, 0) + seq![QUOTE]
}

/// How the C run-time reads on inside quotes, after `pending` backslashes: the argument
/// and what follows its closing quote.
pub open spec fn reads(text: Seq<u16>, pending: nat) -> Option<(Seq<u16>, Seq<u16>)>
    decreases text.len(),
{
    if text.len() == 0 {
        None
    } else {
        let rest = text.drop_first();
        if text[0] == BACKSLASH {
            reads(rest, pending + 1)
        } else if text[0] == QUOTE && pending % 2 == 0 {
            Some((slashes(pending / 2), rest))
        } else {
            let before = if text[0] == QUOTE {
                slashes(pending / 2)
            } else {
                slashes(pending)
            };
            match reads(rest, 0) {
                None => None,
                Some((value, end)) => Some((before + seq![text[0]] + value, end)),
            }
        }
    }
}

proof fn lemma_reads_slashes(n: nat, text: Seq<u16>, pending: nat)
    ensures
        reads(slashes(n) + text, pending) == reads(text, pending + n),
    decreases n,
{
    if n == 0 {
        assert(slashes(0) + text =~= text);
    } else {
        let all = slashes(n) + text;
        assert(all.drop_first() =~= slashes((n - 1) as nat) + text);
        lemma_reads_slashes((n - 1) as nat, text, pending + 1);
    }
}

proof fn lemma_escape_is_read(value: Seq<u16>, pending: nat, rest: Seq<u16>)
    ensures
        reads(escaped(value, pending) + seq![QUOTE] + rest, 0) == Some(
            (slashes(pending) + value, rest),
        ),
    decreases value.len(),
{
    let end = seq![QUOTE] + rest;
    if value.len() == 0 {
        assert(escaped(value, pending) + seq![QUOTE] + rest =~= slashes(2 * pending) + end);
        lemma_reads_slashes(2 * pending, end, 0);
        assert(end.drop_first() =~= rest);
        assert((2 * pending) / 2 == pending);
        assert(slashes(pending) + value =~= slashes(pending));
    } else {
        let tail = value.drop_first();
        if value[0] == BACKSLASH {
            lemma_escape_is_read(tail, pending + 1, rest);
            assert(slashes(pending + 1) + tail =~= slashes(pending) + value);
        } else if value[0] == QUOTE {
            lemma_escape_is_read(tail, 0, rest);
            let after = escaped(tail, 0) + seq![QUOTE] + rest;
            let text = seq![QUOTE] + after;
            assert(escaped(value, pending) + seq![QUOTE] + rest =~= slashes(2 * pending + 1)
                + text);
            lemma_reads_slashes(2 * pending + 1, text, 0);
            assert(text.drop_first() =~= after);
            assert((2 * pending + 1) / 2 == pending);
            assert(slashes(pending) + seq![QUOTE] + (slashes(0) + tail) =~= slashes(pending)
                + value);
        } else {
            lemma_escape_is_read(tail, 0, rest);
            let after = escaped(tail, 0) + seq![QUOTE] + rest;
            let text = seq![value[0]] + after;
            assert(escaped(value, pending) + seq![QUOTE] + rest =~= slashes(pending) + text);
            lemma_reads_slashes(pending, text, 0);
            assert(text.drop_first() =~= after);
            assert(slashes(pending) + seq![value[0]] + (slashes(0) + tail) =~= slashes(pending)
                + value);
        }
    }
}

/// The C run-time reads a quoted argument back exactly, whatever follows it.
pub proof fn law_quoted_argument_is_read_back(value: Seq<u16>, rest: Seq<u16>)
    ensures
        (quoted(value) + rest)[0] == QUOTE,
        reads((quoted(value) + rest).drop_first(), 0) == Some((value, rest)),
{
    lemma_escape_is_read(value, 0, rest);
    assert((quoted(value) + rest).drop_first() =~= escaped(value, 0) + seq![QUOTE] + rest);
    assert(slashes(0) + value =~= value);
}

fn push_slashes(out: &mut Vec<u16>, n: usize)
    ensures
        final(out)@ == old(out)@ + slashes(n as nat),
{
    let ghost before = out@;
    let mut i: usize = 0;
    assert(before + slashes(0) =~= before);
    while i < n
        invariant
            i <= n,
            out@ == before + slashes(i as nat),
        decreases n - i,
    {
        out.push(BACKSLASH);
        assert(out@ =~= before + slashes((i + 1) as nat));
        i = i + 1;
    }
}

/// Append a quoted argument. A zero unit cannot stand in a command line.
pub fn quote(value: &Vec<u16>, out: &mut Vec<u16>) -> (done: Result<(), Error>)
    requires
        2 * value@.len() + 1 <= usize::MAX,
    ensures
        match done {
            Ok(_) => !value@.contains(0) && final(out)@ == old(out)@ + quoted(value@),
            Err(e) => value@.contains(0) && e == Error::plain(ErrorKind::InvalidInput),
        },
{
    let ghost before = out@;
    out.push(QUOTE);
    let mut pending: usize = 0;
    let mut i: usize = 0;
    assert(value@.skip(0) =~= value@);
    while i < value.len()
        invariant
            i <= value@.len(),
            pending <= i,
            2 * value@.len() + 1 <= usize::MAX,
            forall|k: int| 0 <= k < i ==> value@[k] != 0,
            before + seq![QUOTE] + escaped(value@, 0) == out@ + escaped(
                value@.skip(i as int),
                pending as nat,
            ),
        decreases value@.len() - i,
    {
        let unit: u16 = value[i];
        if unit == 0 {
            assert(value@.contains(value@[i as int]));
            return Err(invalid());
        }
        let ghost held = out@;
        let ghost tail = value@.skip(i as int);
        assert(tail.drop_first() =~= value@.skip(i + 1));
        if unit == BACKSLASH {
            pending = pending + 1;
        } else {
            if unit == QUOTE {
                push_slashes(out, 2 * pending + 1);
            } else {
                push_slashes(out, pending);
            }
            out.push(unit);
            proof {
                let n = if unit == QUOTE {
                    (2 * pending + 1) as nat
                } else {
                    pending as nat
                };
                assert(out@ =~= held + slashes(n) + seq![unit]);
                assert(held + (slashes(n) + seq![unit] + escaped(value@.skip(i + 1), 0)) =~= out@
                    + escaped(value@.skip(i + 1), 0));
            }
            pending = 0;
        }
        i = i + 1;
    }
    let ghost held = out@;
    push_slashes(out, 2 * pending);
    out.push(QUOTE);
    proof {
        assert(value@.skip(i as int).len() == 0);
        assert(out@ =~= held + slashes(2 * pending as nat) + seq![QUOTE]);
        assert(out@ =~= before + quoted(value@));
        assert(!value@.contains(0));
    }
    Ok(())
}

/// A program and its arguments, quoted and separated by spaces.
pub open spec fn joined(program: Seq<u16>, args: Seq<Vec<u16>>) -> Seq<u16>
    decreases args.len(),
{
    if args.len() == 0 {
        quoted(program)
    } else {
        joined(program, args.drop_last()) + seq![SPACE] + quoted(args.last()@)
    }
}

/// No zero unit occurs.
pub open spec fn clean(program: Seq<u16>, args: Seq<Vec<u16>>) -> bool {
    !program.contains(0) && forall|k: int|
        0 <= k < args.len() ==> !(#[trigger] args[k])@.contains(0)
}

/// The terminated command line of a program and its arguments, if it is clean and short
/// enough for the system.
pub fn command_line(program: &Vec<u16>, args: &Vec<Vec<u16>>) -> (line: Result<Vec<u16>, Error>)
    requires
        2 * program@.len() + 1 <= usize::MAX,
        forall|k: int| 0 <= k < args@.len() ==> 2 * (#[trigger] args@[k])@.len() + 1 <= usize::MAX,
    ensures
        match line {
            Ok(text) => {
                &&& clean(program@, args@)
                &&& text@ == joined(program@, args@) + seq![0u16]
                &&& text@.len() <= LIMIT
            },
            Err(e) => {
                &&& e == Error::plain(ErrorKind::InvalidInput)
                &&& !clean(program@, args@) || joined(program@, args@).len() + 1 > LIMIT
            },
        },
{
    let mut text: Vec<u16> = Vec::new();
    quote(program, &mut text)?;
    assert(text@ =~= quoted(program@));
    let mut i: usize = 0;
    assert(args@.take(0) =~= Seq::<Vec<u16>>::empty());
    while i < args.len()
        invariant
            i <= args@.len(),
            !program@.contains(0),
            forall|k: int| 0 <= k < i ==> !(#[trigger] args@[k])@.contains(0),
            forall|k: int|
                0 <= k < args@.len() ==> 2 * (#[trigger] args@[k])@.len() + 1 <= usize::MAX,
            text@ == joined(program@, args@.take(i as int)),
        decreases args@.len() - i,
    {
        let ghost held = text@;
        text.push(SPACE);
        quote(&args[i], &mut text)?;
        proof {
            assert(args@.take(i + 1).drop_last() =~= args@.take(i as int));
            assert(args@.take(i + 1).last() == args@[i as int]);
            assert(text@ =~= held + seq![SPACE] + quoted(args@[i as int]@));
        }
        i = i + 1;
    }
    assert(args@.take(i as int) =~= args@);
    text.push(0);
    assert(text@ =~= joined(program@, args@) + seq![0u16]);
    if text.len() > LIMIT {
        return Err(invalid());
    }
    Ok(text)
}

/// A terminated wide string. A zero inside it is refused.
pub fn wide(value: &Vec<u16>) -> (text: Result<Vec<u16>, Error>)
    ensures
        match text {
            Ok(t) => !value@.contains(0) && t@ == value@.push(0),
            Err(e) => value@.contains(0) && e == Error::plain(ErrorKind::InvalidInput),
        },
{
    let mut text: Vec<u16> = Vec::new();
    let mut i: usize = 0;
    while i < value.len()
        invariant
            i <= value@.len(),
            text@ == value@.take(i as int),
            forall|k: int| 0 <= k < i ==> value@[k] != 0,
        decreases value@.len() - i,
    {
        if value[i] == 0 {
            assert(value@.contains(value@[i as int]));
            return Err(invalid());
        }
        text.push(value[i]);
        assert(text@ =~= value@.take(i + 1));
        i = i + 1;
    }
    assert(value@.take(i as int) =~= value@);
    text.push(0);
    Ok(text)
}

/// The arguments of a command line, read one after the other: each in quotes, a space between two. At
/// most `n` are read.
pub open spec fn words(text: Seq<u16>, n: nat) -> Option<Seq<Seq<u16>>>
    decreases n,
{
    if n == 0 || text.len() == 0 || text[0] != 34 {
        None
    } else {
        match reads(text.drop_first(), 0) {
            None => None,
            Some((word, rest)) => if rest.len() == 0 {
                Some(seq![word])
            } else if rest[0] != 32 {
                None
            } else {
                match words(rest.drop_first(), (n - 1) as nat) {
                    None => None,
                    Some(more) => Some(seq![word] + more),
                }
            },
        }
    }
}

/// Arguments behind the program, each behind a space.
pub open spec fn behind(args: Seq<Vec<u16>>) -> Seq<u16>
    decreases args.len(),
{
    if args.len() == 0 {
        Seq::empty()
    } else {
        seq![32u16] + quoted(args[0]@) + behind(args.drop_first())
    }
}

proof fn lemma_behind(args: Seq<Vec<u16>>)
    requires
        args.len() > 0,
    ensures
        behind(args) == behind(args.drop_last()) + seq![32u16] + quoted(args.last()@),
    decreases args.len(),
{
    let front = args.drop_last();
    if args.len() == 1 {
        assert(args.drop_first() =~= Seq::empty());
        assert(behind(args.drop_first()) =~= Seq::empty());
        assert(behind(args) =~= behind(front) + seq![32u16] + quoted(args.last()@));
    } else {
        lemma_behind(args.drop_first());
        assert(args.drop_first().drop_last() =~= front.drop_first());
        assert(args.drop_first().last() == args.last());
        assert(front[0] == args[0]);
        assert(behind(args) == seq![32u16] + quoted(args[0]@) + behind(args.drop_first()));
        assert(behind(front) == seq![32u16] + quoted(args[0]@) + behind(front.drop_first()));
        assert(behind(args) =~= behind(front) + seq![32u16] + quoted(args.last()@));
    }
}

proof fn lemma_joined(program: Seq<u16>, args: Seq<Vec<u16>>)
    ensures
        joined(program, args) == quoted(program) + behind(args),
    decreases args.len(),
{
    if args.len() == 0 {
        assert(quoted(program) + behind(args) =~= quoted(program));
    } else {
        lemma_joined(program, args.drop_last());
        lemma_behind(args);
        assert(joined(program, args) =~= quoted(program) + behind(args));
    }
}

proof fn lemma_words(program: Seq<u16>, args: Seq<Vec<u16>>)
    ensures
        words(quoted(program) + behind(args), args.len() + 1) == Some(
            seq![program] + args.map_values(|arg: Vec<u16>| arg@),
        ),
    decreases args.len(),
{
    let text = quoted(program) + behind(args);
    law_quoted_argument_is_read_back(program, behind(args));
    let shown = |arg: Vec<u16>| arg@;
    if args.len() == 0 {
        assert(args.map_values(shown) =~= Seq::empty());
        assert(seq![program] + args.map_values(shown) =~= seq![program]);
    } else {
        let tail = args.drop_first();
        lemma_words(args[0]@, tail);
        let rest = behind(args);
        assert(rest[0] == 32);
        assert(rest.drop_first() =~= quoted(args[0]@) + behind(tail));
        assert(seq![args[0]@] + tail.map_values(shown) =~= args.map_values(shown));
    }
}

/// A command line is read back as it was given: the program, and every argument behind it, in order
/// and unchanged, whatever characters are in them.
pub proof fn law_command_line_is_read_back(program: Seq<u16>, args: Seq<Vec<u16>>)
    ensures
        words(joined(program, args), args.len() + 1) == Some(
            seq![program] + args.map_values(|arg: Vec<u16>| arg@),
        ),
{
    lemma_joined(program, args);
    lemma_words(program, args);
}

/// A command line can be made when no part of it holds a zero.
pub proof fn law_command_lines_hold_no_zero(program: Seq<u16>, args: Seq<Vec<u16>>)
    ensures
        clean(program, args) <==> (forall|k: int|
            0 <= k < program.len() ==> #[trigger] program[k] != 0) && (forall|i: int, k: int|
            0 <= i < args.len() && 0 <= k < args[i]@.len() ==> #[trigger] args[i]@[k] != 0),
{
    if clean(program, args) {
        assert forall|k: int| 0 <= k < program.len() implies #[trigger] program[k] != 0 by {
            assert(program.contains(program[k]));
        }
        assert forall|i: int, k: int|
            0 <= i < args.len() && 0 <= k < args[i]@.len() implies #[trigger] args[i]@[k] != 0 by {
            assert(args[i]@.contains(args[i]@[k]));
        }
    }
}

} // verus!
