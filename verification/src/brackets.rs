use vstd::prelude::*;

verus! {

use vstd::string::StrSliceExecFns;

/// An opening bracket.
pub open spec fn is_opening(c: char) -> bool {
    c == '(' || c == '[' || c == '{'
}

/// The closing bracket that matches an opening one.
pub open spec fn closing_for(c: char) -> char {
    if c == '(' {
        ')'
    } else if c == '[' {
        ']'
    } else {
        '}'
    }
}

/// The bracket discipline over `s`, entered with the open brackets `pending`
/// still waiting for their partner: an opening bracket is put on the stack,
/// any other character must close the most recent open bracket, and at the
/// end nothing may remain open.
pub open spec fn nests_from(s: Seq<char>, pending: Seq<char>) -> bool
    decreases s.len(),
{
    if s.len() == 0 {
        pending.len() == 0
    } else if is_opening(s[0]) {
        nests_from(s.skip(1), pending.push(s[0]))
    } else {
        pending.len() > 0 && closing_for(pending.last()) == s[0] && nests_from(
            s.skip(1),
            pending.drop_last(),
        )
    }
}

/// A string made of properly nested `()`, `[]` and `{}`, with nothing else
/// in it.
pub open spec fn properly_nested(s: Seq<char>) -> bool {
    nests_from(s, Seq::empty())
}

/// Report whether `data` consists of properly nested and closed brackets.
pub fn balanced_paranthesis(data: &str) -> (r: bool)
    ensures
        r == properly_nested(data@),
{
    let n = data.unicode_len();
    let mut stack: Vec<char> = Vec::new();
    let mut i: usize = 0;
    proof {
        assert(data@.skip(0) =~= data@);
    }
    while i < n
        invariant
            n == data@.len(),
            i <= n,
            properly_nested(data@) <==> nests_from(data@.skip(i as int), stack@),
        decreases n - i,
    {
        let c = data.get_char(i);
        proof {
            assert(data@.skip(i as int)[0] == c);
            assert(data@.skip(i as int).skip(1) =~= data@.skip(i as int + 1));
        }
        if c == '(' || c == '[' || c == '{' {
            stack.push(c);
        } else {
            let ghost pending = stack@;
            match stack.pop() {
                Some(top) => {
                    let expected = if top == '(' {
                        ')'
                    } else if top == '[' {
                        ']'
                    } else {
                        '}'
                    };
                    if expected != c {
                        proof {
                            assert(!nests_from(data@.skip(i as int), pending));
                        }
                        return false;
                    }
                    proof {
                        assert(stack@ =~= pending.drop_last());
                    }
                },
                None => {
                    return false;
                },
            }
        }
        i = i + 1;
    }
    proof {
        assert(data@.skip(n as int) =~= Seq::<char>::empty());
    }
    stack.len() == 0
}

} // verus!
