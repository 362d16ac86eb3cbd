//! Escaping of header parameter values that are emitted inside a
//! double-quoted string: every backslash becomes two backslashes and every
//! double quote becomes a backslash-escaped quote, in one pass, so the two
//! substitutions cannot interfere.

use vstd::prelude::*;

verus! {

/// Relies on `alloc::string::String::push`: appends the given character to
/// the end of the string.
pub assume_specification[ String::push ](s: &mut String, ch: char)
    ensures
        final(s)@ == old(s)@.push(ch),
;

/// What one character contributes to the escaped form.
pub open spec fn escape_char(c: char) -> Seq<char> {
    if c == '\\' {
        seq!['\\', '\\']
    } else if c == '"' {
        seq!['\\', '"']
    } else {
        seq![c]
    }
}

/// The escaped form of a character sequence.
pub open spec fn escape_chars(s: Seq<char>) -> Seq<char>
    decreases s.len(),
{
    if s.len() == 0 {
        Seq::empty()
    } else {
        escape_char(s[0]) + escape_chars(s.drop_first())
    }
}

/// How many characters of the sequence the escaping rewrites.
pub open spec fn count_escapable(s: Seq<char>) -> nat
    decreases s.len(),
{
    if s.len() == 0 {
        0
    } else {
        (if s[0] == '\\' || s[0] == '"' {
            1nat
        } else {
            0nat
        }) + count_escapable(s.drop_first())
    }
}

proof fn lemma_escape_chars_take_step(s: Seq<char>, i: int)
    requires
        0 <= i < s.len(),
    ensures
        escape_chars(s.take(i + 1)) == escape_chars(s.take(i)) + escape_char(s[i]),
    decreases i,
{
    if i == 0 {
        assert(s.take(1)[0] == s[0]);
        assert(s.take(1).drop_first() =~= Seq::<char>::empty());
        assert(s.take(0) =~= Seq::<char>::empty());
        assert(escape_chars(s.take(1)) =~= escape_chars(s.take(0)) + escape_char(s[0]));
    } else {
        let t = s.drop_first();
        lemma_escape_chars_take_step(t, i - 1);
        assert(s.take(i + 1)[0] == s[0]);
        assert(s.take(i)[0] == s[0]);
        assert(s.take(i + 1).drop_first() =~= t.take(i));
        assert(s.take(i).drop_first() =~= t.take(i - 1));
        assert(t[i - 1] == s[i]);
        assert(escape_char(s[0]) + (escape_chars(t.take(i - 1)) + escape_char(s[i])) =~= (
        escape_char(s[0]) + escape_chars(t.take(i - 1))) + escape_char(s[i]));
    }
}

/// Produces the escaped form of `s`: `\` becomes `\\` and `"` becomes `\"`.
pub fn escapeQuotes(s: &str) -> (r: String)
    ensures
        r@ == escape_chars(s@),
{
    let len = s.unicode_len();
    let mut out = String::new();
    let mut i: usize = 0;
    while i < len
        invariant
            0 <= i <= len,
            len == s@.len(),
            out@ == escape_chars(s@.take(i as int)),
        decreases len - i,
    {
        let c = s.get_char(i);
        if c == '\\' {
            out.append("\\\\");
            proof {
                reveal_strlit("\\\\");
                assert("\\\\"@ =~= escape_char(c));
            }
        } else if c == '"' {
            out.append("\\\"");
            proof {
                reveal_strlit("\\\"");
                assert("\\\""@ =~= escape_char(c));
            }
        } else {
            out.push(c);
            proof {
                assert(out@ =~= escape_chars(s@.take(i as int)) + escape_char(c));
            }
        }
        proof {
            lemma_escape_chars_take_step(s@, i as int);
        }
        i += 1;
    }
    proof {
        assert(s@.take(len as int) =~= s@);
    }
    out
}

proof fn lemma_count_escapable_add(a: Seq<char>, b: Seq<char>)
    ensures
        count_escapable(a + b) == count_escapable(a) + count_escapable(b),
    decreases a.len(),
{
    if a.len() == 0 {
        assert(a + b =~= b);
    } else {
        assert((a + b)[0] == a[0]);
        assert((a + b).drop_first() =~= a.drop_first() + b);
        lemma_count_escapable_add(a.drop_first(), b);
    }
}

/// Escaping lengthens the sequence by exactly the number of rewritten
/// characters.
pub proof fn lemma_escape_len(s: Seq<char>)
    ensures
        escape_chars(s).len() == s.len() + count_escapable(s),
    decreases s.len(),
{
    if s.len() > 0 {
        lemma_escape_len(s.drop_first());
    }
}

/// Each pass doubles the number of characters that the next pass would
/// rewrite: `\` becomes `\\` and `"` becomes `\"`, both holding two
/// escapable characters.
pub proof fn lemma_escape_doubles_escapable(s: Seq<char>)
    ensures
        count_escapable(escape_chars(s)) == 2 * count_escapable(s),
    decreases s.len(),
{
    if s.len() > 0 {
        lemma_escape_doubles_escapable(s.drop_first());
        lemma_count_escapable_add(escape_char(s[0]), escape_chars(s.drop_first()));
        assert(count_escapable(escape_char(s[0])) == if s[0] == '\\' || s[0] == '"' {
            2nat
        } else {
            0nat
        }) by {
            reveal_with_fuel(count_escapable, 4);
            let e = escape_char(s[0]);
            if s[0] == '\\' || s[0] == '"' {
                assert(e[0] == '\\' && (e.drop_first()[0] == '\\' || e.drop_first()[0] == '"'));
                assert(e.drop_first().drop_first() =~= Seq::<char>::empty());
            } else {
                assert(e.drop_first() =~= Seq::<char>::empty());
            }
        }
    }
}

/// A sequence is a fixed point of the escaping exactly when it holds no
/// backslash and no double quote.
pub proof fn lemma_escape_fixed_point(s: Seq<char>)
    ensures
        escape_chars(s) == s <==> count_escapable(s) == 0,
    decreases s.len(),
{
    lemma_escape_len(s);
    if count_escapable(s) == 0 {
        if s.len() == 0 {
            assert(escape_chars(s) =~= s);
        } else {
            lemma_escape_fixed_point(s.drop_first());
            assert(escape_char(s[0]) =~= seq![s[0]]);
            assert(escape_chars(s) =~= seq![s[0]] + s.drop_first());
            assert(seq![s[0]] + s.drop_first() =~= s);
        }
    }
}

/// Re-applying the escaping gives the same result only on inputs that the
/// first application already left unchanged: on any input holding a
/// backslash or a double quote, a second pass doubles the backslashes again
/// and yields a strictly longer sequence.
pub proof fn lemma_escape_idempotent_iff(s: Seq<char>)
    ensures
        (escape_chars(escape_chars(s)) == escape_chars(s)) <==> (escape_chars(s) == s),
        (escape_chars(s) == s) <==> count_escapable(s) == 0,
{
    lemma_escape_fixed_point(s);
    lemma_escape_fixed_point(escape_chars(s));
    lemma_escape_doubles_escapable(s);
}

} // verus!
