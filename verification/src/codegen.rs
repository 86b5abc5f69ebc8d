//! Rust code generation support.
//!
//! The generator that turns a parsed schema into Rust source lives
//! outside the core, in the runtime around it; the core contributes the
//! type mapping (see [`crate::schema`]) and the whitespace normalisation
//! applied to generated code, which is specified and verified here.

use vstd::prelude::*;

use crate::strutil::{string_chars, string_from_chars};

verus! {

/// One left-to-right, non-overlapping replacement pass: wherever the
/// pattern occurs, the replacement stands in the result.
pub open spec fn replace_chars(s: Seq<char>, pat: Seq<char>, repl: Seq<char>) -> Seq<char>
    recommends
        pat.len() > 0,
    decreases s.len(),
    when pat.len() > 0
{
    if s.len() < pat.len() {
        s
    } else if s.take(pat.len() as int) == pat {
        repl + replace_chars(s.skip(pat.len() as int), pat, repl)
    } else {
        seq![s[0]] + replace_chars(s.skip(1), pat, repl)
    }
}

/// The whitespace normalisation applied to generated code: five
/// replacement passes, in order.
pub open spec fn formatted_chars(s: Seq<char>) -> Seq<char> {
    replace_chars(
        replace_chars(
            replace_chars(replace_chars(replace_chars(s, " ;"@, ";"@), "  "@, " "@), "{ "@, "{\n    "@),
            " }"@,
            "\n}"@,
        ),
        ", "@,
        ",\n    "@,
    )
}

/// True when the pattern's characters stand in the text at the given
/// position, computed.
fn is_match_at(s: &Vec<char>, pat: &Vec<char>, i: usize) -> (b: bool)
    requires
        i + pat@.len() <= s@.len(),
    ensures
        b <==> (forall|j: int| 0 <= j < pat@.len() ==> s@[i + j] == pat@[j]),
{
    let plen = pat.len();
    let n = s.len();
    let mut k: usize = 0;
    while k < plen
        invariant
            plen == pat@.len(),
            n == s@.len(),
            i + plen <= n,
            0 <= k <= plen,
            forall|j: int| 0 <= j < k ==> s@[i + j] == pat@[j],
        decreases plen - k,
    {
        if s[i + k] != pat[k] {
            proof {
                assert(s@[i + k as int] != pat@[k as int]);
            }
            return false;
        }
        k = k + 1;
    }
    true
}

/// Unfolding the replacement at a match: the replacement stands for
/// the pattern, and the pass goes on after it.
proof fn lemma_replace_unfold_match(s: Seq<char>, pat: Seq<char>, repl: Seq<char>)
    requires
        pat.len() > 0,
        s.len() >= pat.len(),
        s.take(pat.len() as int) == pat,
    ensures
        replace_chars(s, pat, repl) == repl + replace_chars(s.skip(pat.len() as int), pat, repl),
{
}

/// Unfolding the replacement off a match: the head character stands,
/// and the pass goes on after it.
proof fn lemma_replace_unfold_nomatch(s: Seq<char>, pat: Seq<char>, repl: Seq<char>)
    requires
        pat.len() > 0,
        s.len() >= 1,
        s.len() >= pat.len() ==> s.take(pat.len() as int) != pat,
    ensures
        replace_chars(s, pat, repl) == seq![s[0]] + replace_chars(s.skip(1), pat, repl),
{
    if s.len() < pat.len() {
        assert(s.skip(1).len() < pat.len());
        assert(replace_chars(s.skip(1), pat, repl) == s.skip(1));
        assert(s =~= seq![s[0]] + s.skip(1));
    }
}

/// Applies one replacement pass to a character vector.
fn replace_chars_vec(s: &Vec<char>, pat: &Vec<char>, repl: &Vec<char>) -> (r: Vec<char>)
    requires
        pat@.len() > 0,
    ensures
        r@ == replace_chars(s@, pat@, repl@),
{
    let n = s.len();
    let plen = pat.len();
    let mut out: Vec<char> = Vec::new();
    let mut i: usize = 0;
    proof {
        assert(s@.skip(0) =~= s@);
    }
    while i < n
        invariant
            n == s@.len(),
            plen == pat@.len(),
            plen > 0,
            0 <= i <= n,
            out@ + replace_chars(s@.skip(i as int), pat@, repl@) == replace_chars(
                s@,
                pat@,
                repl@,
            ),
        decreases n - i,
    {
        let ghost rem = s@.skip(i as int);
        let ghost prev = out@;
        let matched = if n - i >= plen {
            is_match_at(s, pat, i)
        } else {
            false
        };
        proof {
            assert(rem.len() == n - i);
            assert(forall|j: int| 0 <= j < rem.len() ==> rem[j] == s@[i + j]);
        }
        if matched {
            out.extend_from_slice(repl.as_slice());
            i = i + plen;
            proof {
                assert(rem.take(plen as int) =~= pat@);
                lemma_replace_unfold_match(rem, pat@, repl@);
                assert(rem.skip(plen as int) =~= s@.skip(i as int));
                let tail = replace_chars(s@.skip(i as int), pat@, repl@);
                assert(prev + (repl@ + tail) =~= (prev + repl@) + tail);
                assert(out@ =~= prev + repl@);
                assert(out@ + tail == replace_chars(s@, pat@, repl@));
            }
        } else {
            out.push(s[i]);
            i = i + 1;
            proof {
                if rem.len() >= plen && rem.take(plen as int) == pat@ {
                    let j = choose|j: int| 0 <= j < plen && s@[i - 1 + j] != pat@[j];
                    assert(rem.take(plen as int)[j] == pat@[j]);
                    assert(rem[j] == s@[i - 1 + j]);
                    assert(false);
                }
                lemma_replace_unfold_nomatch(rem, pat@, repl@);
                assert(rem.skip(1) =~= s@.skip(i as int));
                let tail = replace_chars(s@.skip(i as int), pat@, repl@);
                assert(prev + (seq![rem[0]] + tail) =~= (prev + seq![rem[0]]) + tail);
                assert(out@ =~= prev + seq![rem[0]]);
                assert(out@ + tail == replace_chars(s@, pat@, repl@));
            }
        }
    }
    proof {
        assert(s@.skip(n as int) =~= Seq::<char>::empty());
        assert(replace_chars(Seq::<char>::empty(), pat@, repl@) =~= Seq::<char>::empty());
        assert(out@ =~= replace_chars(s@, pat@, repl@));
        assert(out@ == replace_chars(s@, pat@, repl@));
    }
    out
}

/// Emits Rust source from a parsed schema.
///
/// The token-level generation is done by the runtime around the core;
/// this type carries the verified normalisation pass it finishes with.
#[derive(Debug, Default)]
pub struct RustGenerator;

impl RustGenerator {
    /// A fresh generator.
    pub fn new() -> RustGenerator {
        RustGenerator
    }

    /// Normalises the whitespace of generated code: semicolon spacing,
    /// doubled blanks, and line breaks after braces and commas.
    pub fn format_code(&self, code: &str) -> (r: String)
        ensures
            r@ == formatted_chars(code@),
    {
        proof {
            reveal_strlit(" ;");
            reveal_strlit(";");
            reveal_strlit("  ");
            reveal_strlit(" ");
            reveal_strlit("{ ");
            reveal_strlit("{\n    ");
            reveal_strlit(" }");
            reveal_strlit("\n}");
            reveal_strlit(", ");
            reveal_strlit(",\n    ");
        }
        let chars = string_chars(code);
        let s1 = replace_chars_vec(&chars, &string_chars(" ;"), &string_chars(";"));
        let s2 = replace_chars_vec(&s1, &string_chars("  "), &string_chars(" "));
        let s3 = replace_chars_vec(&s2, &string_chars("{ "), &string_chars("{\n    "));
        let s4 = replace_chars_vec(&s3, &string_chars(" }"), &string_chars("\n}"));
        let s5 = replace_chars_vec(&s4, &string_chars(", "), &string_chars(",\n    "));
        string_from_chars(&s5)
    }
}

} // verus!
