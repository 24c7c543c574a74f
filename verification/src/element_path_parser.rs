use vstd::prelude::*;

use crate::outside::is_alphanumeric_char;
use crate::outside::unicode_alphanumeric;
use crate::path::ArrayIndex;
use crate::path::PathElV;
use crate::path::PathElement;

verus! {

/// Whether a character may stand inside a path token: alphanumeric or an
/// underscore.
pub open spec fn elem_char(c: char) -> bool {
    unicode_alphanumeric(c) || c == '_'
}

/// The end of the token that starts at position `i`: the first position at
/// or after `i` that does not hold a token character.
pub open spec fn token_end(s: Seq<char>, i: int) -> int
    decreases s.len() - i,
{
    if i < 0 || i >= s.len() {
        i
    } else if elem_char(s[i]) {
        token_end(s, i + 1)
    } else {
        i
    }
}

/// One path element read at position `i`: an escaped underscore (the literal
/// key `"_"`), or a non-empty token — the wildcard when the token is exactly
/// `"_"`, a literal key otherwise. `None` when no element starts here.
pub open spec fn parse_element_at(s: Seq<char>, i: int) -> Option<(PathElV, int)> {
    if 0 <= i && i + 1 < s.len() && s[i] == '\\' && s[i + 1] == '_' {
        Some((PathElV::Key(seq!['_']), i + 2))
    } else if 0 <= i && i < token_end(s, i) {
        let e = token_end(s, i);
        if s.subrange(i, e) == seq!['_'] {
            Some((PathElV::ArrayIndex(ArrayIndex::All), e))
        } else {
            Some((PathElV::Key(s.subrange(i, e)), e))
        }
    } else {
        None
    }
}

/// The further elements read after position `i`: as long as a dot follows
/// and an element can be read after it, both are consumed; the first failure
/// stops the list without consuming the dot.
pub open spec fn parse_rest(s: Seq<char>, i: int) -> (Seq<PathElV>, int)
    decreases s.len() - i,
{
    if 0 <= i && i < s.len() && s[i] == '.' {
        match parse_element_at(s, i + 1) {
            Some((el, j)) => {
                if i + 1 < j <= s.len() {
                    let rest = parse_rest(s, j);
                    (seq![el] + rest.0, rest.1)
                } else {
                    (Seq::empty(), i)
                }
            },
            None => (Seq::empty(), i),
        }
    } else {
        (Seq::empty(), i)
    }
}

/// The dot-separated list of elements read from the start of the input, and
/// the position where reading stopped. `None` when no first element can be
/// read.
pub open spec fn parse_path_spec(s: Seq<char>) -> Option<(Seq<PathElV>, int)> {
    match parse_element_at(s, 0) {
        Some((el, j)) => {
            let rest = parse_rest(s, j);
            Some((seq![el] + rest.0, rest.1))
        },
        None => None,
    }
}

/// The parsed path, defined exactly when the whole input is consumed.
pub open spec fn parsed_elements(s: Seq<char>) -> Option<Seq<PathElV>> {
    match parse_path_spec(s) {
        Some((els, n)) => {
            if n == s.len() {
                Some(els)
            } else {
                None
            }
        },
        None => None,
    }
}

/// The unconsumed remainder reported on failure: everything after the point
/// where reading stopped, or the whole input when no element could be read.
pub open spec fn parse_remainder(s: Seq<char>) -> Seq<char> {
    match parse_path_spec(s) {
        Some((els, n)) => s.subrange(n, s.len() as int),
        None => s,
    }
}

fn elem_char_exec(c: char) -> (r: bool)
    ensures
        r == elem_char(c),
{
    is_alphanumeric_char(c) || c == '_'
}

fn token_end_exec(s: &str, i: usize) -> (e: usize)
    requires
        i <= s@.len(),
    ensures
        e as int == token_end(s@, i as int),
        i <= e <= s@.len(),
    decreases s@.len() - i,
{
    let n = s.unicode_len();
    if i >= n {
        return i;
    }
    let c = s.get_char(i);
    if elem_char_exec(c) {
        token_end_exec(s, i + 1)
    } else {
        i
    }
}

fn parse_element_at_exec(s: &str, i: usize) -> (r: Option<(PathElement, usize)>)
    requires
        i <= s@.len(),
    ensures
        (match r {
            Some(p) => Some((p.0.deep_view(), p.1 as int)),
            None => None::<(PathElV, int)>,
        }) == parse_element_at(s@, i as int),
        r matches Some(p) ==> i < p.1 <= s@.len(),
{
    let n = s.unicode_len();
    if i < n && s.get_char(i) == '\\' && i + 1 < n && s.get_char(i + 1) == '_' {
        let key = "_".to_owned();
        proof {
            reveal_strlit("_");
            assert(key@ =~= seq!['_']);
        }
        return Some((PathElement::Key(key), i + 2));
    }
    let e = token_end_exec(s, i);
    if e > i {
        if e == i + 1 && s.get_char(i) == '_' {
            proof {
                assert(s@.subrange(i as int, e as int) =~= seq!['_']);
            }
            Some((PathElement::ArrayIndex(ArrayIndex::All), e))
        } else {
            let tok = s.substring_char(i, e);
            proof {
                if s@.subrange(i as int, e as int) == seq!['_'] {
                    assert(s@.subrange(i as int, e as int).len() == 1);
                    assert(e == i + 1);
                    assert(s@.subrange(i as int, e as int)[0] == '_');
                    assert(s@[i as int] == '_');
                }
            }
            Some((PathElement::Key(tok.to_owned()), e))
        }
    } else {
        None
    }
}

fn error_message(input: &str, pos: usize) -> (m: String)
    requires
        pos <= input@.len(),
    ensures
        m@ == "Unparsed input remaining: "@ + input@.subrange(pos as int, input@.len() as int),
{
    let mut m = "Unparsed input remaining: ".to_owned();
    let n = input.unicode_len();
    m.append(input.substring_char(pos, n));
    m
}

/// Parses a dotted path string into its elements. The whole input must be
/// consumed; otherwise the error carries the unconsumed remainder.
pub fn parse_element_path(input: &str) -> (r: Result<Vec<PathElement>, String>)
    ensures
        r is Ok <==> parsed_elements(input@) is Some,
        r matches Ok(v) ==> v.deep_view() == parsed_elements(input@).unwrap(),
        r matches Err(m) ==> m@ == "Unparsed input remaining: "@ + parse_remainder(input@),
{
    let n = input.unicode_len();
    let first = parse_element_at_exec(input, 0);
    match first {
        None => Err(error_message(input, 0)),
        Some((el0, p0)) => {
            let ghost full = parse_path_spec(input@).unwrap();
            let mut els: Vec<PathElement> = Vec::new();
            els.push(el0);
            let mut pos: usize = p0;
            proof {
                assert(els.deep_view() =~= seq![el0.deep_view()]);
                assert(els.deep_view() + parse_rest(input@, pos as int).0 =~= full.0);
            }
            loop
                invariant
                    pos <= input@.len(),
                    n == input@.len(),
                    parse_path_spec(input@) is Some,
                    full == parse_path_spec(input@).unwrap(),
                    els.deep_view() + parse_rest(input@, pos as int).0 == full.0,
                    parse_rest(input@, pos as int).1 == full.1,
                ensures
                    pos <= input@.len(),
                    els.deep_view() == full.0,
                    pos as int == full.1,
                decreases input@.len() - pos,
            {
                if pos >= n {
                    proof {
                        assert(parse_rest(input@, pos as int).0 =~= Seq::<PathElV>::empty());
                        assert(els.deep_view() + Seq::<PathElV>::empty() =~= els.deep_view());
                    }
                    break;
                }
                let c = input.get_char(pos);
                if c != '.' {
                    proof {
                        assert(parse_rest(input@, pos as int).0 =~= Seq::<PathElV>::empty());
                        assert(els.deep_view() + Seq::<PathElV>::empty() =~= els.deep_view());
                    }
                    break;
                }
                let next = parse_element_at_exec(input, pos + 1);
                match next {
                    Some((el, j)) => {
                        let ghost old_els = els.deep_view();
                        let ghost elv = el.deep_view();
                        els.push(el);
                        pos = j;
                        proof {
                            assert(els.deep_view() =~= old_els.push(elv));
                            assert(old_els.push(elv) + parse_rest(input@, pos as int).0 =~= old_els
                                + (seq![elv] + parse_rest(input@, pos as int).0));
                        }
                    },
                    None => {
                        proof {
                            assert(parse_rest(input@, pos as int).0 =~= Seq::<PathElV>::empty());
                            assert(els.deep_view() + Seq::<PathElV>::empty() =~= els.deep_view());
                        }
                        break;
                    },
                }
            }
            if pos == n {
                Ok(els)
            } else {
                Err(error_message(input, pos))
            }
        },
    }
}

} // verus!
