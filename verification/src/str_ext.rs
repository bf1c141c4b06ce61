use vstd::prelude::*;

verus! {

/// The characters that `c` becomes inside an SBPL string literal.
pub open spec fn escape_char(c: char) -> Seq<char> {
    if c == '\\' {
        seq!['\\', '\\']
    } else if c == '"' {
        seq!['\\', '"']
    } else {
        seq![c]
    }
}

/// The escaped form of `s`: each character replaced by `escape_char` of it, in order.
pub open spec fn escaped(s: Seq<char>) -> Seq<char>
    decreases s.len(),
{
    if s.len() == 0 {
        Seq::empty()
    } else {
        escape_char(s[0]) + escaped(s.drop_first())
    }
}

/// Text extension methods used when rendering profiles.
pub trait StrExt {
    /// The characters of the text.
    spec fn text(&self) -> Seq<char>;

    /// Escapes backslashes and double quotes with a backslash, so that the
    /// result can stand between double quotes in an SBPL string literal.
    fn escape(&self) -> (res: String)
        ensures
            res@ == escaped(self.text()),
    ;
}

/// `String::with_capacity`: an empty string (the capacity is not observable here).
#[verifier::external_body]
fn string_with_capacity(capacity: usize) -> (res: String)
    ensures
        res@ == Seq::<char>::empty(),
{
    String::with_capacity(capacity)
}

/// `String::push`: appends the character `c` to the end of the string.
#[verifier::external_body]
fn string_push(s: &mut String, c: char)
    ensures
        final(s)@ == old(s)@.push(c),
{
    s.push(c)
}

impl StrExt for str {
    open spec fn text(&self) -> Seq<char> {
        self@
    }

    fn escape(&self) -> (res: String)
        ensures
            res@ == escaped(self@),
    {
        broadcast use vstd::string::group_string_axioms;

        let mut out = string_with_capacity(self.len());
        for c in it: self.chars()
            invariant
                it.seq() == self@,
                out@ == escaped(self@.take(it.index() as int)),
        {
            let ghost i = it.index();
            proof {
                lemma_escape_take_step(self@, i as int);
            }
            if c == '\\' {
                string_push(&mut out, '\\');
                string_push(&mut out, '\\');
            } else if c == '"' {
                string_push(&mut out, '\\');
                string_push(&mut out, '"');
            } else {
                string_push(&mut out, c);
            }
        }
        proof {
            assert(self@.take(self@.len() as int) =~= self@);
        }
        out
    }
}

proof fn lemma_escape_take_step(s: Seq<char>, i: int)
    requires
        0 <= i < s.len(),
    ensures
        escaped(s.take(i + 1)) == escaped(s.take(i)) + escape_char(s[i]),
{
    lemma_escape_concat(s.take(i), seq![s[i]]);
    assert(s.take(i) + seq![s[i]] =~= s.take(i + 1));
    assert(escaped(seq![s[i]]) =~= escape_char(s[i])) by {
        let one = seq![s[i]];
        assert(one.drop_first() =~= Seq::<char>::empty());
        assert(escaped(one.drop_first()) == Seq::<char>::empty());
        assert(escape_char(s[i]) + Seq::<char>::empty() =~= escape_char(s[i]));
    }
}

/// Escaping works character by character: the escaped form of a concatenation
/// is the concatenation of the escaped forms.
pub proof fn lemma_escape_concat(a: Seq<char>, b: Seq<char>)
    ensures
        escaped(a + b) == escaped(a) + escaped(b),
    decreases a.len(),
{
    if a.len() == 0 {
        assert(a + b =~= b);
        assert(escaped(a) + escaped(b) =~= escaped(b));
    } else {
        assert((a + b).drop_first() =~= a.drop_first() + b);
        lemma_escape_concat(a.drop_first(), b);
        assert(escaped(a + b) =~= escaped(a) + escaped(b));
    }
}

/// Number of backslashes and double quotes in `s`.
pub open spec fn special_count(s: Seq<char>) -> nat
    decreases s.len(),
{
    if s.len() == 0 {
        0
    } else {
        (if s[0] == '\\' || s[0] == '"' { 1nat } else { 0nat }) + special_count(s.drop_first())
    }
}

/// Escaping adds exactly one character per backslash or double quote.
pub proof fn lemma_escape_len(s: Seq<char>)
    ensures
        escaped(s).len() == s.len() + special_count(s),
    decreases s.len(),
{
    if s.len() > 0 {
        lemma_escape_len(s.drop_first());
    }
}

/// Text without backslashes and double quotes is left untouched by escaping.
pub proof fn lemma_escape_leaves_plain_text_untouched(s: Seq<char>)
    requires
        forall|i: int| 0 <= i < s.len() ==> s[i] != '\\' && s[i] != '"',
    ensures
        escaped(s) == s,
    decreases s.len(),
{
    if s.len() > 0 {
        assert forall|i: int| 0 <= i < s.drop_first().len() implies s.drop_first()[i] != '\\'
            && s.drop_first()[i] != '"' by {
            assert(s.drop_first()[i] == s[i + 1]);
        }
        lemma_escape_leaves_plain_text_untouched(s.drop_first());
        assert(escaped(s) =~= s);
    }
}

/// Reads the body of an SBPL string literal back: `\\` stands for a backslash,
/// `\"` for a double quote; any other backslash or a bare double quote makes
/// the body malformed (`None`).
pub open spec fn unescaped(t: Seq<char>) -> Option<Seq<char>>
    decreases t.len(),
{
    if t.len() == 0 {
        Some(Seq::empty())
    } else if t[0] == '\\' {
        if t.len() >= 2 && (t[1] == '\\' || t[1] == '"') {
            match unescaped(t.skip(2)) {
                Some(rest) => Some(seq![t[1]] + rest),
                None => None,
            }
        } else {
            None
        }
    } else if t[0] == '"' {
        None
    } else {
        match unescaped(t.drop_first()) {
            Some(rest) => Some(seq![t[0]] + rest),
            None => None,
        }
    }
}

/// Escaped text is a well-formed string-literal body that reads back as the
/// original text: no information is lost and no bare quote is produced.
pub proof fn lemma_unescape_escape_roundtrip(s: Seq<char>)
    ensures
        unescaped(escaped(s)) == Some(s),
    decreases s.len(),
{
    if s.len() == 0 {
    } else {
        let t = escaped(s);
        let rest = escaped(s.drop_first());
        lemma_unescape_escape_roundtrip(s.drop_first());
        if s[0] == '\\' || s[0] == '"' {
            assert(t.skip(2) =~= rest);
        } else {
            assert(t.drop_first() =~= rest);
        }
        assert(seq![s[0]] + s.drop_first() =~= s);
    }
}

} // verus!
