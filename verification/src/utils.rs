use vstd::prelude::*;
use vstd::string::{StringExecFns, StrSliceExecFns};

verus! {

/// The characters before the first at sign of an address, or all of them
/// when there is none.
pub open spec fn email_local_part(s: Seq<char>) -> Seq<char> {
    if exists|i: int| 0 <= i < s.len() && s[i] == '@' {
        s.subrange(0, first_at(s))
    } else {
        s
    }
}

/// The index of the first at sign, or the length when there is none.
pub open spec fn first_at(s: Seq<char>) -> int
    decreases s.len(),
{
    if s.len() == 0 {
        0
    } else if s[0] == '@' {
        0
    } else {
        1 + first_at(s.subrange(1, s.len() as int))
    }
}

/// Dots replaced by underscores, character for character.
pub open spec fn dots_to_underscores(s: Seq<char>) -> Seq<char> {
    s.map_values(
        |c: char|
            if c == '.' {
                '_'
            } else {
                c
            },
    )
}

/// The user name derived from an address: its local part, with dots turned
/// into underscores.
pub open spec fn user_name_of(s: Seq<char>) -> Seq<char> {
    dots_to_underscores(email_local_part(s))
}

proof fn lemma_first_at(s: Seq<char>)
    ensures
        0 <= first_at(s) <= s.len(),
        first_at(s) < s.len() ==> s[first_at(s)] == '@',
        forall|j: int| 0 <= j < first_at(s) ==> #[trigger] s[j] != '@',
        (exists|i: int| 0 <= i < s.len() && #[trigger] s[i] == '@') ==> first_at(s) < s.len(),
    decreases s.len(),
{
    if s.len() == 0 {
    } else if s[0] == '@' {
    } else {
        let t = s.subrange(1, s.len() as int);
        lemma_first_at(t);
        assert forall|j: int| 0 <= j < first_at(s) implies #[trigger] s[j] != '@' by {
            if j > 0 {
                assert(s[j] == t[j - 1]);
            }
        }
        if exists|i: int| 0 <= i < s.len() && #[trigger] s[i] == '@' {
            let i = choose|i: int| 0 <= i < s.len() && #[trigger] s[i] == '@';
            assert(t[i - 1] == '@');
        }
    }
}

/// Derives a user name from an electronic-mail address: everything before
/// the first at sign, with dots replaced by underscores.
pub fn user_name_from_email(email: &str) -> (r: String)
    ensures
        r@ == user_name_of(email@),
{
    let n = email.unicode_len();
    proof {
        lemma_first_at(email@);
    }
    let mut cut: usize = n;
    let mut i: usize = 0;
    while i < n
        invariant
            i <= n,
            n == email@.len(),
            cut == n || (cut < i && email@[cut as int] == '@' && (forall|j: int|
                0 <= j < cut ==> #[trigger] email@[j] != '@')),
            cut == n ==> (forall|j: int| 0 <= j < i ==> #[trigger] email@[j] != '@'),
        decreases n - i,
    {
        if cut == n && email.get_char(i) == '@' {
            cut = i;
        }
        i = i + 1;
    }
    proof {
        if cut < n {
            assert(first_at(email@) == cut as int) by {
                assert(exists|i2: int| 0 <= i2 < email@.len() && #[trigger] email@[i2] == '@');
                if first_at(email@) < cut as int {
                    assert(email@[first_at(email@)] == '@');
                } else if first_at(email@) > cut as int {
                    assert(email@[cut as int] != '@');
                }
            }
            assert(email_local_part(email@) == email@.subrange(0, cut as int));
        } else {
            assert(!(exists|i2: int| 0 <= i2 < email@.len() && #[trigger] email@[i2] == '@'))
                by {
                if exists|i2: int| 0 <= i2 < email@.len() && #[trigger] email@[i2] == '@' {
                    let w = choose|i2: int|
                        0 <= i2 < email@.len() && #[trigger] email@[i2] == '@';
                }
            }
            assert(email_local_part(email@) =~= email@.subrange(0, cut as int));
        }
    }
    let mut out = String::new();
    let mut i: usize = 0;
    while i < cut
        invariant
            i <= cut <= n,
            n == email@.len(),
            email_local_part(email@) == email@.subrange(0, cut as int),
            out@ == dots_to_underscores(email@.subrange(0, i as int)),
        decreases cut - i,
    {
        let c = email.get_char(i);
        let ghost out0 = out@;
        if c == '.' {
            out.append("_");
        } else {
            let piece = email.substring_char(i, i + 1);
            out.append(piece);
        }
        proof {
            reveal_strlit("_");
            assert(email@.subrange(0, i as int + 1) =~= email@.subrange(0, i as int).push(
                email@[i as int],
            ));
            let pre = email@.subrange(0, i as int);
            let pre1 = email@.subrange(0, i as int + 1);
            if email@[i as int] == '.' {
                assert("_"@ =~= seq!['_']);
                assert(out@ =~= dots_to_underscores(pre).push('_'));
                assert(dots_to_underscores(pre1) =~= dots_to_underscores(pre).push('_'));
            } else {
                assert(out@ =~= dots_to_underscores(pre).push(email@[i as int]));
                assert(dots_to_underscores(pre1) =~= dots_to_underscores(pre).push(
                    email@[i as int],
                ));
            }
        }
        i = i + 1;
    }
    proof {
        assert(user_name_of(email@) == dots_to_underscores(email@.subrange(0, cut as int)));
    }
    out
}

/// Whether dispatches wait for the worker or fire and forget: a deployment
/// decision, read from the run mode, never per call.
pub fn get_invocation_type(run_mode: &str) -> (r: Option<String>)
    ensures
        run_mode@ != "local"@ ==> (r matches Some(s) && s@ == "Event"@),
        run_mode@ == "local"@ ==> r is None,
{
    if !(run_mode.to_owned() == "local".to_owned()) {
        Some("Event".to_owned())
    } else {
        None
    }
}

} // verus!
