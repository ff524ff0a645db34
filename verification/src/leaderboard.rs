//! A bounded leaderboard: a list of named scores kept sorted in descending
//! order of score and capped at the ten best entries.
//!
//! A new entry is placed after every entry whose score is greater than or
//! equal to its own (so among equal scores, earlier submissions rank
//! higher), and anything beyond the tenth place is dropped.

use vstd::prelude::*;

verus! {

/// The number of entries the leaderboard keeps.
pub const LEADERBOARD_CAP: usize = 10;

/// One leaderboard entry: a player name and the score they reached.
#[derive(PartialEq, Eq, Debug)]
pub struct Score {
    pub name: String,
    pub score: u64,
}

/// Whether the entries of `s` are in descending order of score.
pub open spec fn sorted_desc(s: Seq<Score>) -> bool {
    forall|i: int, j: int| 0 <= i <= j < s.len() ==> s[i].score >= s[j].score
}

/// The position at which an entry with score `v` is placed in `s`: just
/// after the leading run of entries whose score is at least `v`.
pub open spec fn insert_pos(s: Seq<Score>, v: u64) -> int
    decreases s.len(),
{
    if s.len() == 0 {
        0
    } else if s[0].score >= v {
        1 + insert_pos(s.drop_first(), v)
    } else {
        0
    }
}

/// `s` with `e` placed at its insertion position.
pub open spec fn placed(s: Seq<Score>, e: Score) -> Seq<Score> {
    let p = insert_pos(s, e.score);
    s.subrange(0, p) + seq![e] + s.subrange(p, s.len() as int)
}

/// The leaderboard after recording `e` in `s`: `e` is placed at its
/// insertion position and anything beyond the cap is dropped.
pub open spec fn recorded(s: Seq<Score>, e: Score) -> Seq<Score> {
    let t = placed(s, e);
    if t.len() > LEADERBOARD_CAP {
        t.subrange(0, LEADERBOARD_CAP as int)
    } else {
        t
    }
}

/// The insertion position is a valid index into `s`'s gaps, everything
/// before it scores at least `v`, and the entry right after it (if any)
/// scores below `v`.
proof fn lemma_insert_pos_props(s: Seq<Score>, v: u64)
    requires
        sorted_desc(s),
    ensures
        0 <= insert_pos(s, v) <= s.len(),
        forall|j: int| 0 <= j < insert_pos(s, v) ==> s[j].score >= v,
        insert_pos(s, v) < s.len() ==> s[insert_pos(s, v)].score < v,
    decreases s.len(),
{
    if s.len() > 0 && s[0].score >= v {
        assert(sorted_desc(s.drop_first())) by {
            assert forall|i: int, j: int|
                0 <= i <= j < s.drop_first().len() implies s.drop_first()[i].score
                >= s.drop_first()[j].score by {
                assert(s.drop_first()[i] == s[i + 1]);
                assert(s.drop_first()[j] == s[j + 1]);
            }
        }
        lemma_insert_pos_props(s.drop_first(), v);
        assert forall|j: int| 0 <= j < insert_pos(s, v) implies s[j].score >= v by {
            if j > 0 {
                assert(s.drop_first()[j - 1] == s[j]);
            }
        }
        if insert_pos(s, v) < s.len() {
            assert(s.drop_first()[insert_pos(s.drop_first(), v)] == s[insert_pos(s, v)]);
        }
    }
}

/// Placing an entry at its insertion position keeps the list sorted.
proof fn lemma_placed_sorted(s: Seq<Score>, e: Score)
    requires
        sorted_desc(s),
    ensures
        sorted_desc(placed(s, e)),
{
    lemma_insert_pos_props(s, e.score);
    let p = insert_pos(s, e.score);
    let t = placed(s, e);
    assert forall|i: int, j: int| 0 <= i <= j < t.len() implies t[i].score >= t[j].score by {
        if i < p {
            assert(t[i] == s[i]);
        } else if i == p {
            assert(t[i] == e);
        } else {
            assert(t[i] == s[i - 1]);
        }
        if j < p {
            assert(t[j] == s[j]);
        } else if j == p {
            assert(t[j] == e);
        } else {
            assert(t[j] == s[j - 1]);
        }
    }
}

/// Records `entry` on the leaderboard `board`.
///
/// The entry is inserted after every entry with an equal or higher score,
/// and the list is then cut back to the ten best places, exactly as
/// [`recorded`] describes.
pub fn record_score(board: &mut Vec<Score>, entry: Score)
    requires
        sorted_desc(old(board)@),
    ensures
        final(board)@ == recorded(old(board)@, entry),
        sorted_desc(final(board)@),
{
    proof {
        lemma_insert_pos_props(board@, entry.score);
        lemma_placed_sorted(board@, entry);
    }
    let ghost s = board@;
    let n: usize = board.len();
    let mut pos: usize = 0;
    while pos < n && board[pos].score >= entry.score
        invariant
            board@ == s,
            n == s.len(),
            0 <= pos <= n,
            forall|j: int| 0 <= j < pos ==> s[j].score >= entry.score,
        decreases n - pos,
    {
        pos = pos + 1;
    }
    proof {
        lemma_insert_pos_characterized(s, entry.score, pos as int);
    }
    board.insert(pos, entry);
    assert(board@ =~= placed(s, entry));
    if board.len() > LEADERBOARD_CAP {
        board.truncate(LEADERBOARD_CAP);
    }
    assert(board@ =~= recorded(s, entry));
    assert(sorted_desc(recorded(s, entry))) by {
        let t = placed(s, entry);
        let r = recorded(s, entry);
        assert forall|i: int, j: int| 0 <= i <= j < r.len() implies r[i].score >= r[j].score by {
            assert(r[i] == t[i]);
            assert(r[j] == t[j]);
        }
    }
}

/// A position bounded by the leading run of entries scoring at least `v`,
/// and stopped by the first entry scoring below `v`, is the insertion
/// position.
proof fn lemma_insert_pos_characterized(s: Seq<Score>, v: u64, p: int)
    requires
        sorted_desc(s),
        0 <= p <= s.len(),
        forall|j: int| 0 <= j < p ==> s[j].score >= v,
        p == s.len() || s[p].score < v,
    ensures
        insert_pos(s, v) == p,
    decreases s.len(),
{
    if s.len() == 0 {
    } else if s[0].score >= v {
        assert(p != 0);
        assert(sorted_desc(s.drop_first())) by {
            assert forall|i: int, j: int|
                0 <= i <= j < s.drop_first().len() implies s.drop_first()[i].score
                >= s.drop_first()[j].score by {
                assert(s.drop_first()[i] == s[i + 1]);
                assert(s.drop_first()[j] == s[j + 1]);
            }
        }
        assert forall|j: int| 0 <= j < p - 1 implies s.drop_first()[j].score >= v by {
            assert(s.drop_first()[j] == s[j + 1]);
        }
        if p - 1 < s.drop_first().len() {
            assert(s.drop_first()[p - 1] == s[p]);
        }
        lemma_insert_pos_characterized(s.drop_first(), v, p - 1);
    } else {
        assert(p == 0);
    }
}

} // verus!
