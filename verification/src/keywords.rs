//! The reserved words of the surface syntax.
use vstd::prelude::*;

verus! {

pub open spec fn kw_var() -> Seq<char> {
    seq!['v', 'a', 'r']
}

pub open spec fn kw_let() -> Seq<char> {
    seq!['l', 'e', 't']
}

pub open spec fn kw_const() -> Seq<char> {
    seq!['c', 'o', 'n', 's', 't']
}

pub open spec fn kw_function() -> Seq<char> {
    seq!['f', 'u', 'n', 'c', 't', 'i', 'o', 'n']
}

pub open spec fn kw_undefined() -> Seq<char> {
    seq!['u', 'n', 'd', 'e', 'f', 'i', 'n', 'e', 'd']
}

/// Whether `word` is one of the three interchangeable declaration keywords.
pub open spec fn declaration_keyword(word: Seq<char>) -> bool {
    word == kw_var() || word == kw_let() || word == kw_const()
}

pub fn is_declaration_keyword(word: &Vec<char>) -> (r: bool)
    ensures
        r == declaration_keyword(word@),
{
    let n = word.len();
    if n == 3 {
        let v = word[0] == 'v' && word[1] == 'a' && word[2] == 'r';
        let l = word[0] == 'l' && word[1] == 'e' && word[2] == 't';
        assert(v == (word@ =~= kw_var()));
        assert(l == (word@ =~= kw_let()));
        v || l
    } else if n == 5 {
        let c = word[0] == 'c' && word[1] == 'o' && word[2] == 'n' && word[3] == 's' && word[4]
            == 't';
        assert(c == (word@ =~= kw_const()));
        c
    } else {
        false
    }
}

pub fn is_undefined_keyword(word: &Vec<char>) -> (r: bool)
    ensures
        r == (word@ == kw_undefined()),
{
    if word.len() != 9 {
        return false;
    }
    let r = word[0] == 'u' && word[1] == 'n' && word[2] == 'd' && word[3] == 'e' && word[4] == 'f'
        && word[5] == 'i' && word[6] == 'n' && word[7] == 'e' && word[8] == 'd';
    assert(r == (word@ =~= kw_undefined()));
    r
}

/// The keyword that opens a function declaration.
pub fn function_keyword() -> (r: Vec<char>)
    ensures
        r@ == kw_function(),
{
    let r = vec!['f', 'u', 'n', 'c', 't', 'i', 'o', 'n'];
    assert(r@ =~= kw_function());
    r
}

} // verus!
