//! The top widget: the head line and the attempts that are left.

use vstd::prelude::*;

verus! {

/// Width of the top widget in cells.
pub const WIDTH: u16 = 54;
/// Height of the top widget in cells.
pub const HEIGHT: u16 = 4;
/// Attempts at the start of a game.
pub const INITIAL_ATTEMPTS: usize = 4;

/// The head line and the number of attempts left.
#[derive(Debug)]
pub struct TopWidget {
    head_line: String,
    remaining_attempts: usize,
}

/// The marks that show `n` attempts: `n` squares separated by spaces.
pub open spec fn attempt_marks(n: nat) -> Seq<char>
    decreases n,
{
    if n == 0 {
        Seq::empty()
    } else if n == 1 {
        seq!['■']
    } else {
        attempt_marks((n - 1) as nat) + seq![' ', '■']
    }
}

impl TopWidget {
    /// The number of attempts left.
    pub closed spec fn attempts(&self) -> nat {
        self.remaining_attempts as nat
    }

    /// The head line.
    pub closed spec fn head(&self) -> Seq<char> {
        self.head_line@
    }

    /// One attempt fewer, but never below zero.
    pub fn remove_attempt(&mut self)
        ensures
            final(self).attempts() == if old(self).attempts() > 0 {
                old(self).attempts() - 1
            } else {
                0
            },
            final(self).head() == old(self).head(),
    {
        if self.remaining_attempts > 0 {
            self.remaining_attempts = self.remaining_attempts - 1;
        }
    }

    /// No attempt is left.
    pub fn locked_out(&self) -> (b: bool)
        ensures
            b == (self.attempts() == 0),
    {
        self.remaining_attempts == 0
    }

    /// The number of attempts left.
    pub fn remaining_attempts(&self) -> (n: usize)
        ensures
            n == self.attempts(),
    {
        self.remaining_attempts
    }

    /// The head line.
    pub fn head_line(&self) -> (s: &str)
        ensures
            s@ == self.head(),
    {
        self.head_line.as_str()
    }

    /// The line that shows the attempts left, as the widget draws it.
    pub fn attempts_line(&self) -> (s: String)
        ensures
            s@ == "Attempts Remaining: "@ + attempt_marks(self.attempts()),
    {
        let mut s = String::from_str("Attempts Remaining: ");
        let mut k: usize = 0;
        while k < self.remaining_attempts
            invariant
                k <= self.remaining_attempts,
                s@ == "Attempts Remaining: "@ + attempt_marks(k as nat),
            decreases self.remaining_attempts - k,
        {
            if k > 0 {
                s.append(" ");
            }
            s.append("■");
            proof {
                reveal_strlit(" ");
                reveal_strlit("■");
                assert(s@ =~= "Attempts Remaining: "@ + attempt_marks((k + 1) as nat));
            }
            k = k + 1;
        }
        s
    }
}

impl Default for TopWidget {
    /// The welcome head line and four attempts.
    fn default() -> (w: TopWidget)
        ensures
            w.head() == "Welcome to ROBCO Industries (TM) Termlink"@,
            w.attempts() == INITIAL_ATTEMPTS,
    {
        TopWidget {
            head_line: String::from_str("Welcome to ROBCO Industries (TM) Termlink"),
            remaining_attempts: INITIAL_ATTEMPTS,
        }
    }
}

/// The attempts left after `k` removals from `start`.
pub open spec fn attempts_after(start: nat, k: nat) -> nat {
    if k >= start {
        0
    } else {
        (start - k) as nat
    }
}

/// A run of top widgets, each the one before after `remove_attempt`.
pub open spec fn removal_run(ws: Seq<TopWidget>) -> bool {
    forall|i: int|
        0 <= i < ws.len() - 1 ==> (#[trigger] ws[i + 1]).attempts() == if ws[i].attempts() > 0 {
            ws[i].attempts() - 1
        } else {
            0
        }
}

/// Starting from the attempts a game starts with, the widget after `k`
/// calls of `remove_attempt` has `attempts_after(INITIAL_ATTEMPTS, k)`
/// attempts left, so it is locked out exactly when `k` is at least
/// `INITIAL_ATTEMPTS`; once locked out, it stays locked out.
pub proof fn lemma_removals_lock_out(ws: Seq<TopWidget>)
    requires
        ws.len() > 0,
        ws[0].attempts() == INITIAL_ATTEMPTS,
        removal_run(ws),
    ensures
        forall|k: int| 0 <= k < ws.len() ==> #[trigger] ws[k].attempts() == attempts_after(INITIAL_ATTEMPTS as nat, k as nat),
        forall|k: int| 0 <= k < ws.len() ==> (#[trigger] ws[k].attempts() == 0 <==> k >= INITIAL_ATTEMPTS),
        forall|j: int, k: int| 0 <= j <= k < ws.len() && #[trigger] ws[j].attempts() == 0 ==> #[trigger] ws[k].attempts() == 0,
    decreases ws.len(),
{
    if ws.len() > 1 {
        let prefix = ws.drop_last();
        assert forall|i: int| 0 <= i < prefix.len() - 1 implies (#[trigger] prefix[i + 1]).attempts() == if prefix[i].attempts() > 0 {
            prefix[i].attempts() - 1
        } else {
            0
        } by {
            assert(prefix[i + 1] == ws[i + 1] && prefix[i] == ws[i]);
        }
        lemma_removals_lock_out(prefix);
        let n = ws.len() - 1;
        assert(prefix[n - 1] == ws[n - 1]);
        assert(ws[n].attempts() == attempts_after(INITIAL_ATTEMPTS as nat, n as nat)) by {
            assert(ws[n - 1 + 1] == ws[n]);
        }
        assert forall|k: int| 0 <= k < ws.len() implies #[trigger] ws[k].attempts() == attempts_after(INITIAL_ATTEMPTS as nat, k as nat) by {
            if k < n {
                assert(prefix[k] == ws[k]);
            }
        }
    }
}

} // verus!
