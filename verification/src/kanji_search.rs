//! Search for kanji by the radicals they are composed of: the kanji that
//! every radical of a query is part of.

use vstd::prelude::*;
use vstd::string::*;
use crate::strokes::{Action, ActionModel, StrokeModel, StrokeSearch, reply_model, stroke_step};
use crate::table::{
    MembershipModel, RadicalMembership, find_radical, first_listing, glyphs_present, table_model,
    texts,
};

verus! {

/// The kanji of the first entry that lists `radical`, `None` where no entry
/// lists it.
pub open spec fn kanji_of(table: Seq<MembershipModel>, radical: char) -> Option<Set<Seq<char>>> {
    match first_listing(table, radical) {
        Some(i) => Some(table[i].kanji.to_set()),
        None => None,
    }
}

/// The kanji found for a sequence of radicals. The first radical gives its
/// kanji, each later one keeps of them those that it is part of too. A
/// radical that the table does not list leaves what was found as it is.
pub open spec fn search_result(table: Seq<MembershipModel>, radicals: Seq<char>) -> Set<Seq<char>>
    decreases radicals.len(),
{
    if radicals.len() == 0 {
        Set::empty()
    } else {
        let before = search_result(table, radicals.drop_last());
        match kanji_of(table, radicals.last()) {
            Some(kanji) => if radicals.len() == 1 {
                kanji
            } else {
                before.intersect(kanji)
            },
            None => before,
        }
    }
}

/// The kanji that `radical` is part of; none where the table does not list
/// it.
pub open spec fn listed_kanji(table: Seq<MembershipModel>, radical: char) -> Set<Seq<char>> {
    match kanji_of(table, radical) {
        Some(kanji) => kanji,
        None => Set::empty(),
    }
}

/// Whether the table lists every radical of the sequence.
pub open spec fn all_listed(table: Seq<MembershipModel>, radicals: Seq<char>) -> bool {
    forall|i: int| 0 <= i < radicals.len() ==> kanji_of(table, #[trigger] radicals[i]) is Some
}

/// Whether `kanji` is composed with every radical of the sequence.
pub open spec fn in_all(table: Seq<MembershipModel>, radicals: Seq<char>, kanji: Seq<char>) -> bool {
    forall|i: int|
        0 <= i < radicals.len() ==> listed_kanji(table, #[trigger] radicals[i]).contains(kanji)
}

/// A search for one radical gives the kanji of that radical, all of them
/// and no others.
pub proof fn lemma_single_radical(table: Seq<MembershipModel>, radical: char)
    ensures
        search_result(table, seq![radical]) == listed_kanji(table, radical),
{
    let radicals = seq![radical];
    assert(search_result(table, radicals.drop_last()) =~= Set::<Seq<char>>::empty());
}

/// Where the table lists every radical of a query, the search gives exactly
/// the kanji that are composed with all of them.
pub proof fn lemma_search_is_intersection(table: Seq<MembershipModel>, radicals: Seq<char>)
    requires
        radicals.len() >= 1,
        all_listed(table, radicals),
    ensures
        forall|kanji: Seq<char>|
            search_result(table, radicals).contains(kanji) <==> in_all(table, radicals, kanji),
    decreases radicals.len(),
{
    let front = radicals.drop_last();
    let last = radicals.last();
    if radicals.len() == 1 {
        assert forall|kanji: Seq<char>|
            search_result(table, radicals).contains(kanji) <==> in_all(
                table,
                radicals,
                kanji,
            ) by {}
    } else {
        assert forall|i: int| 0 <= i < front.len() implies kanji_of(table, #[trigger] front[i])
            is Some by {}
        lemma_search_is_intersection(table, front);
        assert forall|kanji: Seq<char>|
            search_result(table, radicals).contains(kanji) <==> in_all(
                table,
                radicals,
                kanji,
            ) by {
            if in_all(table, front, kanji) && listed_kanji(table, last).contains(kanji) {
                assert forall|i: int| 0 <= i < radicals.len() implies listed_kanji(
                    table,
                    #[trigger] radicals[i],
                ).contains(kanji) by {
                    if i < front.len() {
                        assert(front[i] == radicals[i]);
                    }
                }
            }
        }
    }
}

/// The order of the radicals makes no difference: two queries that name the
/// same radicals, all of them listed in the table, find the same kanji.
pub proof fn lemma_search_order_free(
    table: Seq<MembershipModel>,
    first: Seq<char>,
    second: Seq<char>,
)
    requires
        first.len() >= 1,
        second.len() >= 1,
        all_listed(table, first),
        all_listed(table, second),
        first.to_set() == second.to_set(),
    ensures
        search_result(table, first) == search_result(table, second),
{
    lemma_search_is_intersection(table, first);
    lemma_search_is_intersection(table, second);
    assert forall|kanji: Seq<char>| in_all(table, first, kanji) <==> in_all(
        table,
        second,
        kanji,
    ) by {
        if in_all(table, first, kanji) {
            assert forall|i: int| 0 <= i < second.len() implies listed_kanji(
                table,
                #[trigger] second[i],
            ).contains(kanji) by {
                assert(second.to_set().contains(second[i]));
            }
        }
        if in_all(table, second, kanji) {
            assert forall|i: int| 0 <= i < first.len() implies listed_kanji(
                table,
                #[trigger] first[i],
            ).contains(kanji) by {
                assert(first.to_set().contains(first[i]));
            }
        }
    }
    assert forall|kanji: Seq<char>|
        search_result(table, first).contains(kanji) <==> search_result(table, second).contains(
            kanji,
        ) by {
        assert(search_result(table, first).contains(kanji) <==> in_all(table, first, kanji));
    }
}

/// What a search for two radicals gives.
pub proof fn lemma_two_radicals(table: Seq<MembershipModel>, a: char, b: char)
    ensures
        search_result(table, seq![a, b]) == match kanji_of(table, b) {
            Some(kanji) => listed_kanji(table, a).intersect(kanji),
            None => listed_kanji(table, a),
        },
{
    let radicals = seq![a, b];
    assert(radicals.drop_last() =~= seq![a]);
    lemma_single_radical(table, a);
}

/// Two radicals find the same kanji in either order. Left out is the case
/// in which the table lists only one of the two, and that one is part of
/// some kanji: an unlisted radical is passed over behind a listed one, but
/// in front of it nothing is found.
pub proof fn lemma_order_of_two(table: Seq<MembershipModel>, a: char, b: char)
    requires
        kanji_of(table, a) is None && kanji_of(table, b) is Some ==> listed_kanji(table, b)
            =~= Set::<Seq<char>>::empty(),
        kanji_of(table, a) is Some && kanji_of(table, b) is None ==> listed_kanji(table, a)
            =~= Set::<Seq<char>>::empty(),
    ensures
        search_result(table, seq![a, b]) == search_result(table, seq![b, a]),
{
    lemma_two_radicals(table, a, b);
    lemma_two_radicals(table, b, a);
}

/// Two radicals that share no kanji find nothing. Left out is the case in
/// which the table does not list the second radical while the first is part
/// of some kanji: the second is then passed over.
pub proof fn lemma_disjoint_radicals(table: Seq<MembershipModel>, a: char, b: char)
    requires
        listed_kanji(table, a).disjoint(listed_kanji(table, b)),
        kanji_of(table, b) is None ==> listed_kanji(table, a) =~= Set::<Seq<char>>::empty(),
    ensures
        search_result(table, seq![a, b]) == Set::<Seq<char>>::empty(),
{
    lemma_two_radicals(table, a, b);
}

/// Whether `item` is one of the strings of `list`.
pub fn contains_text(list: &Vec<String>, item: &String) -> (found: bool)
    ensures
        found == texts(list@).contains(item@),
{
    let mut i: usize = 0;
    while i < list.len()
        invariant
            i <= list.len(),
            forall|j: int| 0 <= j < i ==> texts(list@)[j] != item@,
        decreases list.len() - i,
    {
        if list[i] == *item {
            assert(texts(list@)[i as int] == item@);
            return true;
        }
        i += 1;
    }
    false
}

/// The strings of `kanji`, each once.
pub fn distinct(kanji: &Vec<String>) -> (found: Vec<String>)
    ensures
        texts(found@).to_set() == texts(kanji@).to_set(),
        texts(found@).no_duplicates(),
{
    let mut found: Vec<String> = Vec::new();
    let mut i: usize = 0;
    while i < kanji.len()
        invariant
            i <= kanji.len(),
            texts(found@).no_duplicates(),
            forall|k: Seq<char>|
                texts(found@).contains(k) <==> texts(kanji@).subrange(0, i as int).contains(k),
        decreases kanji.len() - i,
    {
        let ghost before = found@;
        let ghost upto = texts(kanji@).subrange(0, i as int);
        let ghost next = texts(kanji@).subrange(0, i + 1);
        let ghost item = kanji[i as int]@;
        proof {
            assert forall|k: Seq<char>| next.contains(k) <==> (upto.contains(k) || k == item) by {
                assert(next[i as int] == item);
            }
        }
        if !contains_text(&found, &kanji[i]) {
            let copy = kanji[i].clone();
            found.push(copy);
            proof {
                assert(texts(found@) =~= texts(before).push(item));
                assert forall|k: Seq<char>| texts(found@).contains(k) <==> (texts(before).contains(k)
                    || k == item) by {
                    if texts(before).contains(k) {
                        let j = choose|j: int| 0 <= j < texts(before).len() && texts(before)[j] == k;
                        assert(texts(found@)[j] == k);
                    }
                    assert(texts(found@)[before.len() as int] == item);
                }
            }
        }
        proof {
            assert forall|k: Seq<char>| texts(found@).contains(k) <==> next.contains(k) by {
                assert(texts(before).contains(k) <==> upto.contains(k));
            }
        }
        i += 1;
    }
    proof {
        assert(texts(kanji@).subrange(0, i as int) =~= texts(kanji@));
    }
    found
}

/// The strings of `found` that occur in `kanji` too.
pub fn keep_common(found: &Vec<String>, kanji: &Vec<String>) -> (kept: Vec<String>)
    requires
        texts(found@).no_duplicates(),
    ensures
        texts(kept@).to_set() == texts(found@).to_set().intersect(texts(kanji@).to_set()),
        texts(kept@).no_duplicates(),
{
    let mut kept: Vec<String> = Vec::new();
    let ghost mut origin: Seq<int> = Seq::empty();
    let mut i: usize = 0;
    while i < found.len()
        invariant
            i <= found.len(),
            origin.len() == kept.len(),
            forall|a: int| 0 <= a < origin.len() ==> 0 <= #[trigger] origin[a] < i && texts(
                kept@,
            )[a] == texts(found@)[origin[a]],
            forall|a: int, b: int| 0 <= a < b < origin.len() ==> origin[a] < origin[b],
            forall|j: int|
                0 <= j < i && texts(kanji@).contains(#[trigger] texts(found@)[j]) ==> texts(
                    kept@,
                ).contains(texts(found@)[j]),
            forall|a: int|
                0 <= a < kept.len() ==> texts(kanji@).contains(#[trigger] texts(kept@)[a]),
        decreases found.len() - i,
    {
        let ghost before = kept@;
        if contains_text(kanji, &found[i]) {
            let copy = found[i].clone();
            kept.push(copy);
            proof {
                origin = origin.push(i as int);
                assert(texts(kept@) =~= texts(before).push(found[i as int]@));
                assert forall|j: int|
                    0 <= j < i + 1 && texts(kanji@).contains(
                        #[trigger] texts(found@)[j],
                    ) implies texts(kept@).contains(texts(found@)[j]) by {
                    if j < i {
                        let a = choose|a: int|
                            0 <= a < texts(before).len() && texts(before)[a] == texts(found@)[j];
                        assert(texts(kept@)[a] == texts(found@)[j]);
                    } else {
                        assert(texts(kept@)[before.len() as int] == texts(found@)[j]);
                    }
                }
            }
        }
        i += 1;
    }
    proof {
        assert forall|a: int, b: int| 0 <= a < b < kept.len() implies texts(kept@)[a] != texts(
            kept@,
        )[b] by {
            assert(origin[a] < origin[b]);
        }
        let left = texts(kept@).to_set();
        let right = texts(found@).to_set().intersect(texts(kanji@).to_set());
        assert forall|k: Seq<char>| left.contains(k) <==> right.contains(k) by {
            if left.contains(k) {
                let a = choose|a: int| 0 <= a < texts(kept@).len() && texts(kept@)[a] == k;
                assert(texts(found@)[origin[a]] == k);
            }
        }
    }
    kept
}

/// Whether `c` marks a radical that the user does not know by its glyph: the
/// asterisk, in its narrow or its wide form.
pub open spec fn wildcard(c: char) -> bool {
    c == '*' || c == '\u{FF0A}'
}

/// Whether `c` marks a radical that is to be picked by its stroke count.
pub fn is_wildcard(c: char) -> (b: bool)
    ensures
        b == wildcard(c),
{
    c == '*' || c == '\u{FF0A}'
}

/// What was found once `radical` is taken in: its kanji where it is the
/// first radical of the query, else those of `found` that it is part of.
/// A radical that the table does not list changes nothing.
pub open spec fn absorbed(
    table: Seq<MembershipModel>,
    found: Set<Seq<char>>,
    first: bool,
    radical: char,
) -> Set<Seq<char>> {
    match kanji_of(table, radical) {
        Some(kanji) => if first {
            kanji
        } else {
            found.intersect(kanji)
        },
        None => found,
    }
}

/// Takes one radical into what was found so far.
pub fn absorb(found: Vec<String>, table: &[RadicalMembership], first: bool, radical: char) -> (r:
    Vec<String>)
    requires
        texts(found@).no_duplicates(),
    ensures
        texts(r@).no_duplicates(),
        texts(r@).to_set() == absorbed(table_model(table@), texts(found@).to_set(), first, radical),
{
    match find_radical(table, radical) {
        Some(i) => {
            if first {
                distinct(&table[i].kanji)
            } else {
                keep_common(&found, &table[i].kanji)
            }
        },
        None => found,
    }
}

/// The first position at or behind `cursor` at which the query holds a
/// wildcard, or the query's length where it holds none there.
pub open spec fn next_stop(query: Seq<char>, cursor: int) -> int
    decreases query.len() - cursor,
{
    if cursor < 0 || cursor >= query.len() || wildcard(query[cursor]) {
        cursor
    } else {
        next_stop(query, cursor + 1)
    }
}

/// One move of a search that waits at the wildcard at `cursor`: the reply
/// goes to the dialogue; once a radical is chosen, the search moves on to
/// the next wildcard, or to the end of the query, and a new dialogue begins.
/// The result holds the new cursor, the new dialogue, the query as it then
/// reads, and what the caller is to do.
pub open spec fn search_step(
    cursor: int,
    dialogue: StrokeModel,
    query: Seq<char>,
    table: Seq<MembershipModel>,
    reply: Option<Seq<char>>,
) -> (int, StrokeModel, Seq<char>, ActionModel) {
    let moved = stroke_step(dialogue, query, table, cursor, reply);
    if moved.0 is Resolved {
        (next_stop(moved.1, cursor + 1), StrokeModel::AwaitingStrokeCount, moved.1, moved.2)
    } else {
        (cursor, moved.0, moved.1, moved.2)
    }
}

/// A search after a run of replies: each reply in turn moves it on, until
/// the end of the query is reached or the replies have run out.
pub open spec fn search_run(
    cursor: int,
    dialogue: StrokeModel,
    query: Seq<char>,
    table: Seq<MembershipModel>,
    replies: Seq<Seq<char>>,
) -> (int, StrokeModel, Seq<char>)
    decreases replies.len(),
{
    if cursor >= query.len() || replies.len() == 0 {
        (cursor, dialogue, query)
    } else {
        let moved = search_step(cursor, dialogue, query, table, Some(replies[0]));
        search_run(moved.0, moved.1, moved.2, table, replies.drop_first())
    }
}

/// A search under way. The radicals of the query are taken in from left to
/// right; the search waits where the query holds a wildcard, until the user
/// has chosen the radical that is to stand there.
#[derive(Debug)]
pub struct RadicalSearch {
    /// The position in the query, counted in characters, of the radical that
    /// is to be taken in next. The search has ended when this is the
    /// query's length.
    pub cursor: usize,
    /// The kanji found for the radicals before `cursor`, each once.
    pub found: Vec<String>,
    /// The dialogue about the wildcard at `cursor`.
    pub dialogue: StrokeSearch,
}

impl RadicalSearch {
    /// Whether the search fits the query and the table: it stands at a
    /// wildcard or at the end, and holds what the radicals before that
    /// position give.
    pub open spec fn wf(&self, query: Seq<char>, table: Seq<MembershipModel>) -> bool {
        &&& 1 <= self.cursor <= query.len()
        &&& self.cursor < query.len() ==> wildcard(query[self.cursor as int])
            && !(self.dialogue is Resolved)
        &&& texts(self.found@).no_duplicates()
        &&& texts(self.found@).to_set() == search_result(
            table,
            query.subrange(1, self.cursor as int),
        )
    }

    /// Whether every radical of the query has been taken in.
    pub open spec fn finished(&self, query: Seq<char>) -> bool {
        self.cursor >= query.len()
    }

    /// Whether every radical of the query has been taken in.
    pub fn is_finished(&self, query: &str) -> (b: bool)
        ensures
            b == self.finished(query@),
    {
        self.cursor >= query.unicode_len()
    }

    /// Takes in the radicals from `cursor` on, up to the next wildcard or to
    /// the end of the query.
    fn settle(self, query: &str, table: &[RadicalMembership]) -> (r: RadicalSearch)
        requires
            1 <= self.cursor <= query@.len(),
            texts(self.found@).no_duplicates(),
            texts(self.found@).to_set() == search_result(
                table_model(table@),
                query@.subrange(1, self.cursor as int),
            ),
        ensures
            r.cursor == next_stop(query@, self.cursor as int),
            r.dialogue@ == StrokeModel::AwaitingStrokeCount,
            r.wf(query@, table_model(table@)),
    {
        let n: usize = query.unicode_len();
        let mut cursor: usize = self.cursor;
        let mut found: Vec<String> = self.found;
        while cursor < n && !is_wildcard(query.get_char(cursor))
            invariant
                n == query@.len(),
                1 <= cursor <= n,
                next_stop(query@, cursor as int) == next_stop(query@, self.cursor as int),
                texts(found@).no_duplicates(),
                texts(found@).to_set() == search_result(
                    table_model(table@),
                    query@.subrange(1, cursor as int),
                ),
            decreases n - cursor,
        {
            let radical: char = query.get_char(cursor);
            proof {
                let upto = query@.subrange(1, cursor + 1);
                assert(upto.drop_last() =~= query@.subrange(1, cursor as int));
            }
            found = absorb(found, table, cursor == 1, radical);
            cursor += 1;
        }
        RadicalSearch { cursor, found, dialogue: StrokeSearch::AwaitingStrokeCount }
    }

    /// Begins the search for a query: takes in the radicals that stand
    /// before the first wildcard. The first character of the query is its
    /// mode marker and is passed over.
    pub fn start(query: &str, table: &[RadicalMembership]) -> (r: RadicalSearch)
        requires
            query@.len() >= 2,
        ensures
            r.cursor == next_stop(query@, 1),
            r.dialogue@ == StrokeModel::AwaitingStrokeCount,
            r.wf(query@, table_model(table@)),
    {
        let begin = RadicalSearch {
            cursor: 1,
            found: Vec::new(),
            dialogue: StrokeSearch::AwaitingStrokeCount,
        };
        proof {
            assert(texts(begin.found@).to_set() =~= Set::<Seq<char>>::empty());
        }
        begin.settle(query, table)
    }

    /// Takes one reply of the user. The reply goes to the dialogue about the
    /// wildcard at `cursor`; once a radical is chosen there, it is written
    /// into the query and taken in, and so are the radicals behind it, up to
    /// the next wildcard or to the end of the query.
    pub fn step(self, query: &mut String, table: &[RadicalMembership], reply: Option<&str>) -> (r: (
        RadicalSearch,
        Action,
    ))
        requires
            self.wf(old(query)@, table_model(table@)),
            !self.finished(old(query)@),
            glyphs_present(table_model(table@)),
        ensures
            (r.0.cursor as int, r.0.dialogue@, final(query)@, r.1@) == search_step(
                self.cursor as int,
                self.dialogue@,
                old(query)@,
                table_model(table@),
                reply_model(reply),
            ),
            r.0.wf(final(query)@, table_model(table@)),
    {
        let cursor: usize = self.cursor;
        let found: Vec<String> = self.found;
        let (dialogue, action) = self.dialogue.advance(query, table, cursor, reply);
        match dialogue {
            StrokeSearch::Resolved { glyph } => {
                proof {
                    assert(query@.subrange(1, cursor as int) =~= old(query)@.subrange(
                        1,
                        cursor as int,
                    ));
                    let upto = query@.subrange(1, cursor + 1);
                    assert(upto.drop_last() =~= query@.subrange(1, cursor as int));
                }
                let found = absorb(found, table, cursor == 1, glyph);
                let length: usize = query.as_str().unicode_len();
                let next = RadicalSearch {
                    cursor: if cursor < length {
                        cursor + 1
                    } else {
                        length
                    },
                    found,
                    dialogue: StrokeSearch::AwaitingStrokeCount,
                };
                (next.settle(query.as_str(), table), action)
            },
            other => (RadicalSearch { cursor, found, dialogue: other }, action),
        }
    }
}

/// Searches the kanji that are composed with every radical of the query.
/// The first character of the query is its mode marker; each further one is
/// a radical, or a wildcard that the replies resolve: a stroke count and a
/// selection, one line each. Each chosen radical is written into the query
/// in place of its wildcard. Gives the kanji found, each once, or `None`
/// where the replies end before every wildcard is resolved.
pub fn search_by_radical(query: &mut String, table: &[RadicalMembership], replies: &Vec<String>) -> (
    found: Option<Vec<String>>)
    requires
        old(query)@.len() >= 2,
        glyphs_present(table_model(table@)),
    ensures
        ({
            let end = search_run(
                next_stop(old(query)@, 1),
                StrokeModel::AwaitingStrokeCount,
                old(query)@,
                table_model(table@),
                texts(replies@),
            );
            &&& final(query)@ == end.2
            &&& found is Some <==> end.0 >= end.2.len()
            &&& found is Some ==> texts(found->0@).no_duplicates() && texts(found->0@).to_set()
                == search_result(table_model(table@), end.2.subrange(1, end.2.len() as int))
        }),
{
    let ghost lines = texts(replies@);
    let mut search = RadicalSearch::start(query.as_str(), table);
    let mut i: usize = 0;
    assert(lines.subrange(0, lines.len() as int) =~= lines);
    while i < replies.len() && !search.is_finished(query.as_str())
        invariant
            i <= replies.len(),
            lines == texts(replies@),
            glyphs_present(table_model(table@)),
            search.wf(query@, table_model(table@)),
            search_run(
                search.cursor as int,
                search.dialogue@,
                query@,
                table_model(table@),
                lines.subrange(i as int, lines.len() as int),
            ) == search_run(
                next_stop(old(query)@, 1),
                StrokeModel::AwaitingStrokeCount,
                old(query)@,
                table_model(table@),
                lines,
            ),
        decreases replies.len() - i,
    {
        proof {
            let rest = lines.subrange(i as int, lines.len() as int);
            assert(rest.drop_first() =~= lines.subrange(i + 1, lines.len() as int));
        }
        let (next, _) = search.step(query, table, Some(replies[i].as_str()));
        search = next;
        i += 1;
    }
    if search.is_finished(query.as_str()) {
        Some(search.found)
    } else {
        None
    }
}

} // verus!
