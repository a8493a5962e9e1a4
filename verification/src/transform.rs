use vstd::prelude::*;
use vstd::string::StrSliceExecFns;

verus! {

/// The capitalization applied to the first character of each identifier
/// segment: an ASCII lower-case letter is replaced by its upper-case
/// counterpart, every other character is left unchanged.
pub open spec fn upper_char(c: char) -> char {
    if 'a' <= c && c <= 'z' {
        (((c as u32) - 32) as char)
    } else {
        c
    }
}

/// The name transform, character by character: `upper_next` records whether
/// the next ordinary character starts a segment and must be capitalized.
/// A separator `'_'` becomes `'-'` and makes the following character a
/// segment start; every other character is capitalized at a segment start
/// and copied unchanged elsewhere.
pub open spec fn transform_chars(s: Seq<char>, upper_next: bool) -> Seq<char>
    decreases s.len(),
{
    if s.len() == 0 {
        Seq::empty()
    } else if s[0] == '_' {
        seq!['-'] + transform_chars(s.drop_first(), true)
    } else if upper_next {
        seq![upper_char(s[0])] + transform_chars(s.drop_first(), false)
    } else {
        seq![s[0]] + transform_chars(s.drop_first(), false)
    }
}

/// The paragraph field name derived from a record field identifier: segments
/// are separated by `'_'` in the identifier, each segment is capitalized, and
/// the segments are joined with `'-'`.
pub open spec fn transform_name(s: Seq<char>) -> Seq<char> {
    transform_chars(s, true)
}

/// Relies on `String::push`: appends exactly the given character.
#[verifier::external_body]
fn push_char(s: &mut String, c: char)
    ensures
        final(s)@ == old(s)@.push(c),
{
    s.push(c)
}

/// Capitalize one character, as `upper_char` describes.
fn to_upper(c: char) -> (r: char)
    ensures
        r == upper_char(c),
{
    match c {
        'a' => 'A',
        'b' => 'B',
        'c' => 'C',
        'd' => 'D',
        'e' => 'E',
        'f' => 'F',
        'g' => 'G',
        'h' => 'H',
        'i' => 'I',
        'j' => 'J',
        'k' => 'K',
        'l' => 'L',
        'm' => 'M',
        'n' => 'N',
        'o' => 'O',
        'p' => 'P',
        'q' => 'Q',
        'r' => 'R',
        's' => 'S',
        't' => 'T',
        'u' => 'U',
        'v' => 'V',
        'w' => 'W',
        'x' => 'X',
        'y' => 'Y',
        'z' => 'Z',
        _ => c,
    }
}

/// Derive the paragraph field name from a record field identifier:
/// `"field"` becomes `"Field"`, `"composed_field"` becomes `"Composed-Field"`.
pub fn ident_to_parse(input: &str) -> (out: String)
    ensures
        out@ == transform_name(input@),
{
    let n = input.unicode_len();
    let mut out = String::new();
    let mut upper_next = true;
    let mut i: usize = 0;
    proof {
        assert(input@.skip(0) =~= input@);
        assert(out@ + transform_chars(input@, true) =~= transform_name(input@));
    }
    while i < n
        invariant
            n == input@.len(),
            i <= n,
            out@ + transform_chars(input@.skip(i as int), upper_next) == transform_name(input@),
        decreases n - i,
    {
        let c = input.get_char(i);
        proof {
            assert(input@.skip(i as int)[0] == c);
            assert(input@.skip(i as int).drop_first() =~= input@.skip(i as int + 1));
        }
        if c == '_' {
            push_char(&mut out, '-');
            upper_next = true;
        } else if upper_next {
            push_char(&mut out, to_upper(c));
            upper_next = false;
        } else {
            push_char(&mut out, c);
        }
        i = i + 1;
        proof {
            assert(out@ + transform_chars(input@.skip(i as int), upper_next)
                =~= transform_name(input@));
        }
    }
    proof {
        assert(input@.skip(n as int) =~= Seq::<char>::empty());
        assert(out@ =~= transform_name(input@));
    }
    out
}

/// Capitalizing an already-capitalized character changes nothing.
pub proof fn lemma_upper_char_idempotent(c: char)
    ensures
        upper_char(upper_char(c)) == upper_char(c),
{
}

proof fn lemma_transform_update(s: Seq<char>, upper_next: bool, i: int)
    requires
        0 <= i < s.len(),
        (i == 0 && upper_next) || (i > 0 && s[i - 1] == '_'),
    ensures
        transform_chars(s.update(i, upper_char(s[i])), upper_next) == transform_chars(s, upper_next),
    decreases s.len(),
{
    let t = s.update(i, upper_char(s[i]));
    if i == 0 {
        if s[0] == '_' {
            assert(t =~= s);
        } else {
            assert(t[0] == upper_char(s[0]));
            lemma_upper_char_idempotent(s[0]);
            assert(t.drop_first() =~= s.drop_first());
        }
    } else {
        assert(t[0] == s[0]);
        assert(t.drop_first() =~= s.drop_first().update(i - 1, upper_char(s.drop_first()[i - 1])));
        if s[0] == '_' {
            lemma_transform_update(s.drop_first(), true, i - 1);
        } else {
            lemma_transform_update(s.drop_first(), false, i - 1);
        }
    }
}

/// Capitalization is forced, not merely applied to lower-case letters: at a
/// segment start (the start of the identifier, or right after a separator),
/// pre-capitalizing the character does not change the transformed name.
pub proof fn lemma_capitalization_forced(s: Seq<char>, i: int)
    requires
        0 <= i < s.len(),
        i == 0 || s[i - 1] == '_',
    ensures
        transform_name(s.update(i, upper_char(s[i]))) == transform_name(s),
{
    lemma_transform_update(s, true, i);
}

} // verus!
