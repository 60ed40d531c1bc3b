//! afterglow measures how fast GitHub repositories gain stars.
//!
//! A repository's star count is read once a day. Two readings that lie far enough apart give
//! a measured velocity; everything else is labelled as what it is. The modules here hold the
//! rules: what a reading, a rank, a badge and a page say, what may be asked of GitHub, and what
//! is written for whom. Every one of them works on plain values, so a database, a socket or a
//! clock stays with the program around it.

use vstd::prelude::*;

#[allow(unused_imports)]
use crate::text::{decimal, push_decimal};

pub mod badge;
pub mod board;
pub mod cuts;
pub mod github;
pub mod history;
pub mod import;
pub mod likeness;
pub mod markup;
pub mod names;
pub mod round;
pub mod serve;
pub mod site;
pub mod snapshot;
pub mod store;
pub mod text;
pub mod time;
pub mod velocity;
pub mod wording;

verus! {

/// A count with its noun.
pub open spec fn counted(n: nat, noun: Seq<char>) -> Seq<char> {
    if n == 1 {
        decimal(n) + " "@ + noun
    } else {
        decimal(n) + " "@ + noun + "s"@
    }
}

/// One is counted in the singular, and any other number, none among them, in the plural.
pub proof fn law_only_one_is_singular(n: nat, noun: Seq<char>)
    ensures
        n == 1 ==> counted(n, noun) == decimal(n) + seq![' '] + noun,
        n != 1 ==> counted(n, noun) == decimal(n) + seq![' '] + noun + seq!['s'],
{
    reveal_strlit(" ");
    reveal_strlit("s");
    assert(" "@ =~= seq![' ']);
    assert("s"@ =~= seq!['s']);
}

/// A count with its noun, plural unless there is one of them.
pub fn plural(n: usize, noun: &str) -> (r: String)
    ensures
        r@ == counted(n as nat, noun@),
{
    let mut out = String::new();
    push_decimal(&mut out, n as u128);
    out.append(" ");
    out.append(noun);
    if n != 1 {
        out.append("s");
    }
    assert(Seq::<char>::empty() + decimal(n as nat) =~= decimal(n as nat));
    out
}

} // verus!
