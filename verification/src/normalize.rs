//! The normalizer: maps raw records into the typed conversation model,
//! canonicalizing roles case-insensitively, trimming content, replacing empty
//! content with a placeholder, and demoting any second system record to an
//! ordinary turn instead of dropping it.

use vstd::prelude::*;
use vstd::string::StringExecFns;
use crate::model::Conversation;
use crate::model::ConversationView;
use crate::model::RawRecord;
use crate::model::Role;
use crate::model::RoleView;
use crate::model::Turn;
use crate::model::TurnView;
use crate::model::records_view;
use crate::strings::ascii_lower_seq;
use crate::strings::ascii_seq;
use crate::strings::lower_of;
use crate::strings::lowercase;
use crate::textops::all_space_range;
use crate::textops::all_ws;
use crate::textops::chars_of;
use crate::textops::trim_chat_spec;
use crate::textops::trim_chat_whitespace;

verus! {

/// How a raw role string is canonicalized: its lower-cased form selects the
/// typed role, and anything unrecognized keeps the original string.
pub open spec fn classify_role_spec(role: Seq<char>) -> RoleView {
    if lower_of(role) == "system"@ {
        RoleView::System
    } else if lower_of(role) == "user"@ {
        RoleView::User
    } else if lower_of(role) == "assistant"@ {
        RoleView::Assistant
    } else {
        RoleView::Other(role)
    }
}

/// Role canonicalization written over the ASCII lowering alone.
pub open spec fn classify_role_ascii(role: Seq<char>) -> RoleView {
    if ascii_lower_seq(role) == "system"@ {
        RoleView::System
    } else if ascii_lower_seq(role) == "user"@ {
        RoleView::User
    } else if ascii_lower_seq(role) == "assistant"@ {
        RoleView::Assistant
    } else {
        RoleView::Other(role)
    }
}

/// Canonicalizes a role string. Role recognition is case-insensitive: for an
/// ASCII role string the result depends only on its ASCII-lowercased form, so
/// `"USER"`, `"User"` and `"user"` all map to the user role.
pub fn classify_role(role: &String) -> (r: Role)
    ensures
        r@ == classify_role_spec(role@),
        ascii_seq(role@) ==> r@ == classify_role_ascii(role@),
{
    let lo = lowercase(role.as_str());
    if lo == String::from_str("system") {
        Role::System
    } else if lo == String::from_str("user") {
        Role::User
    } else if lo == String::from_str("assistant") {
        Role::Assistant
    } else {
        Role::Other(role.clone())
    }
}

/// Canonical content: log-trimmed, with whitespace-only content replaced by
/// the literal placeholder.
pub open spec fn canon_content(c: Seq<char>) -> Seq<char> {
    if all_ws(trim_chat_spec(c)) {
        "(empty)"@
    } else {
        trim_chat_spec(c)
    }
}

/// Empty or whitespace-only content normalizes to the `"(empty)"`
/// placeholder.
pub proof fn lemma_empty_content_placeholder(c: Seq<char>)
    requires
        all_ws(c),
    ensures
        canon_content(c) == "(empty)"@,
{
    lemma_chat_tail_end_bounds(c, c.len() as int);
    let b = crate::textops::chat_tail_end(c, c.len() as int);
    let t0 = c.take(b);
    lemma_chat_head_from_bounds(t0, 0);
    let a = crate::textops::chat_head_from(t0, 0);
    let t = trim_chat_spec(c);
    assert(t == t0.skip(a));
    assert forall|i: int| 0 <= i < t.len() implies crate::textops::is_ws_char(t[i]) by {
        assert(t[i] == t0[a + i]);
        assert(t0[a + i] == c[a + i]);
    }
}

proof fn lemma_chat_tail_end_bounds(s: Seq<char>, i: int)
    requires
        0 <= i <= s.len(),
    ensures
        0 <= crate::textops::chat_tail_end(s, i) <= i,
    decreases i,
{
    if i > 0 && crate::textops::is_chat_tail_char(s[i - 1]) {
        lemma_chat_tail_end_bounds(s, i - 1);
    }
}

proof fn lemma_chat_head_from_bounds(s: Seq<char>, i: int)
    requires
        0 <= i <= s.len(),
    ensures
        i <= crate::textops::chat_head_from(s, i) <= s.len(),
    decreases s.len() - i,
{
    if i < s.len() && crate::textops::is_chat_head_char(s[i]) {
        lemma_chat_head_from_bounds(s, i + 1);
    }
}

/// Builds the canonical content of a record.
pub fn canonical_content(content: &String) -> (r: String)
    ensures
        r@ == canon_content(content@),
{
    let cleaned = trim_chat_whitespace(content.as_str());
    let v = chars_of(cleaned.as_str());
    if all_space_range(&v, 0, v.len()) {
        assert(v@.subrange(0, v@.len() as int) =~= v@);
        String::from_str("(empty)")
    } else {
        assert(v@.subrange(0, v@.len() as int) =~= v@);
        cleaned
    }
}

/// One normalization step: what one record does to the system slot and the
/// turn list.
pub open spec fn norm_step(
    r: (Seq<char>, Seq<char>),
    sys: Option<Seq<char>>,
    turns: Seq<TurnView>,
) -> (Option<Seq<char>>, Seq<TurnView>) {
    let c = canon_content(r.1);
    match classify_role_spec(r.0) {
        RoleView::System => if sys is None {
            (Some(c), turns)
        } else {
            (sys, turns.push(TurnView { role: RoleView::Other("System (extra)"@), content: c }))
        },
        k => (sys, turns.push(TurnView { role: k, content: c })),
    }
}

/// The normalizer folded over `rs[i..]` from the given state.
pub open spec fn normalize_from(
    rs: Seq<(Seq<char>, Seq<char>)>,
    i: int,
    sys: Option<Seq<char>>,
    turns: Seq<TurnView>,
) -> (Option<Seq<char>>, Seq<TurnView>)
    decreases rs.len() - i,
        when 0 <= i <= rs.len()
{
    if i >= rs.len() {
        (sys, turns)
    } else {
        let p = norm_step(rs[i], sys, turns);
        normalize_from(rs, i + 1, p.0, p.1)
    }
}

/// The conversation the normalizer produces for a record sequence. The
/// normalizer is total and emits no warnings of its own.
pub open spec fn normalize_spec(rs: Seq<(Seq<char>, Seq<char>)>) -> ConversationView {
    ConversationView {
        system: normalize_from(rs, 0, None, Seq::empty()).0,
        turns: normalize_from(rs, 0, None, Seq::empty()).1,
        warnings: Seq::empty(),
    }
}

/// The view of an optional owned string.
pub open spec fn opt_view(o: Option<String>) -> Option<Seq<char>> {
    match o {
        Some(s) => Some(s@),
        None => None,
    }
}

/// The views of a turn vector.
pub open spec fn turn_views(ts: Seq<Turn>) -> Seq<TurnView> {
    ts.map_values(|t: Turn| t@)
}

/// Normalizes raw records into a conversation: content is trimmed and given a
/// placeholder when empty, roles are canonicalized case-insensitively, the
/// first system record fills the system slot, every further system record is
/// demoted to an ordinary turn, and turns keep the input order.
pub fn normalize(records: Vec<RawRecord>) -> (c: Conversation)
    ensures
        c@ == normalize_spec(records_view(records@)),
{
    let ghost rv = records_view(records@);
    let mut system: Option<String> = None;
    let mut turns: Vec<Turn> = Vec::new();
    assert(turn_views(turns@) =~= Seq::<TurnView>::empty());
    let mut i: usize = 0;
    while i < records.len()
        invariant
            i <= records@.len(),
            rv == records_view(records@),
            rv.len() == records@.len(),
            normalize_from(rv, 0, None, Seq::empty()) == normalize_from(
                rv,
                i as int,
                opt_view(system),
                turn_views(turns@),
            ),
        decreases records@.len() - i,
    {
        let ghost sv = opt_view(system);
        let ghost tv = turn_views(turns@);
        assert(rv[i as int] == (records@[i as int].role@, records@[i as int].content@));
        let rec = &records[i];
        let role_enum = classify_role(&rec.role);
        let content = canonical_content(&rec.content);
        match role_enum {
            Role::System => {
                if system.is_none() {
                    system = Some(content);
                } else {
                    turns.push(
                        Turn {
                            role: Role::Other(String::from_str("System (extra)")),
                            content,
                        },
                    );
                }
            },
            other => {
                turns.push(Turn { role: other, content });
            },
        }
        proof {
            let step = norm_step(rv[i as int], sv, tv);
            assert(opt_view(system) == step.0);
            assert(turn_views(turns@) =~= step.1);
        }
        i = i + 1;
    }
    let c = Conversation { system, turns, warnings: Vec::new() };
    proof {
        assert(c@.turns =~= turn_views(c.turns@));
        assert(c@.warnings =~= Seq::<Seq<char>>::empty());
    }
    c
}

/// The turn a record yields when it does not fill the system slot: a system
/// record is demoted to the `System (extra)` label, everything else keeps its
/// canonical role; content is canonicalized either way.
pub open spec fn turn_of_rec(r: (Seq<char>, Seq<char>)) -> TurnView {
    match classify_role_spec(r.0) {
        RoleView::System => TurnView {
            role: RoleView::Other("System (extra)"@),
            content: canon_content(r.1),
        },
        k => TurnView { role: k, content: canon_content(r.1) },
    }
}

/// The content of the first record from `i` on whose role is the system role.
pub open spec fn expected_sys(rs: Seq<(Seq<char>, Seq<char>)>, i: int) -> Option<Seq<char>>
    decreases rs.len() - i,
        when 0 <= i <= rs.len()
{
    if i >= rs.len() {
        None
    } else if classify_role_spec(rs[i].0) == RoleView::System {
        Some(canon_content(rs[i].1))
    } else {
        expected_sys(rs, i + 1)
    }
}

/// The turns expected from `rs[i..]`: every record yields one turn in input
/// order, except the first system record when the slot is still free.
pub open spec fn expected_turns(
    rs: Seq<(Seq<char>, Seq<char>)>,
    i: int,
    sys_taken: bool,
) -> Seq<TurnView>
    decreases rs.len() - i,
        when 0 <= i <= rs.len()
{
    if i >= rs.len() {
        Seq::empty()
    } else if !sys_taken && classify_role_spec(rs[i].0) == RoleView::System {
        expected_turns(rs, i + 1, true)
    } else {
        seq![turn_of_rec(rs[i])] + expected_turns(rs, i + 1, sys_taken)
    }
}

proof fn lemma_normalize_from_shape(
    rs: Seq<(Seq<char>, Seq<char>)>,
    i: int,
    sys: Option<Seq<char>>,
    turns: Seq<TurnView>,
)
    requires
        0 <= i <= rs.len(),
    ensures
        normalize_from(rs, i, sys, turns).0 == (if sys is Some {
            sys
        } else {
            expected_sys(rs, i)
        }),
        normalize_from(rs, i, sys, turns).1 == turns + expected_turns(rs, i, sys is Some),
    decreases rs.len() - i,
{
    if i >= rs.len() {
        assert(turns + expected_turns(rs, i, sys is Some) =~= turns);
    } else {
        let p = norm_step(rs[i], sys, turns);
        lemma_normalize_from_shape(rs, i + 1, p.0, p.1);
        if classify_role_spec(rs[i].0) == RoleView::System && sys is None {
            assert(normalize_from(rs, i, sys, turns).1 =~= turns + expected_turns(
                rs,
                i,
                sys is Some,
            ));
        } else {
            assert(p.1 =~= turns.push(turn_of_rec(rs[i])));
            assert(turns.push(turn_of_rec(rs[i])) + expected_turns(rs, i + 1, sys is Some)
                =~= turns + (seq![turn_of_rec(rs[i])] + expected_turns(rs, i + 1, sys is Some)));
        }
    }
}

/// When the system slot is already taken, every remaining record yields
/// exactly one turn, in input order.
pub proof fn lemma_expected_turns_taken(rs: Seq<(Seq<char>, Seq<char>)>, i: int)
    requires
        0 <= i <= rs.len(),
    ensures
        expected_turns(rs, i, true).len() == rs.len() - i,
        forall|j: int|
            0 <= j < rs.len() - i ==> expected_turns(rs, i, true)[j] == turn_of_rec(rs[i + j]),
    decreases rs.len() - i,
{
    if i < rs.len() {
        lemma_expected_turns_taken(rs, i + 1);
        assert forall|j: int| 0 <= j < rs.len() - i implies expected_turns(rs, i, true)[j]
            == turn_of_rec(rs[i + j]) by {
            if j > 0 {
                assert(expected_turns(rs, i, true)[j] == expected_turns(rs, i + 1, true)[j - 1]);
            }
        }
    }
}

/// The shape of every normalized conversation: the system slot holds the
/// canonical content of the first system record, if any; the turns are
/// exactly the remaining records, one turn each, in input order; and the
/// normalizer emits no warnings.
pub proof fn lemma_normalize_shape(rs: Seq<(Seq<char>, Seq<char>)>)
    ensures
        normalize_spec(rs).system == expected_sys(rs, 0),
        normalize_spec(rs).turns == expected_turns(rs, 0, false),
        normalize_spec(rs).warnings == Seq::<Seq<char>>::empty(),
{
    lemma_normalize_from_shape(rs, 0, None, Seq::empty());
    assert(Seq::<TurnView>::empty() + expected_turns(rs, 0, false) =~= expected_turns(
        rs,
        0,
        false,
    ));
}

/// Every record contributes exactly one thing to the conversation: either the
/// system slot or one turn.
pub proof fn lemma_turn_count(rs: Seq<(Seq<char>, Seq<char>)>)
    ensures
        normalize_spec(rs).turns.len() + (if normalize_spec(rs).system is Some {
            1int
        } else {
            0int
        }) == rs.len(),
{
    lemma_normalize_shape(rs);
    lemma_expected_turns_len(rs, 0);
}

proof fn lemma_expected_turns_len(rs: Seq<(Seq<char>, Seq<char>)>, i: int)
    requires
        0 <= i <= rs.len(),
    ensures
        expected_turns(rs, i, false).len() + (if expected_sys(rs, i) is Some {
            1int
        } else {
            0int
        }) == rs.len() - i,
    decreases rs.len() - i,
{
    if i < rs.len() {
        if classify_role_spec(rs[i].0) == RoleView::System {
            lemma_expected_turns_taken(rs, i + 1);
        } else {
            lemma_expected_turns_len(rs, i + 1);
        }
    }
}

/// Order preservation: for a sequence of records none of which carries the
/// system role, the normalized turn sequence has exactly one turn per record,
/// in the same relative order, and the system slot stays empty.
pub proof fn lemma_order_preserved(rs: Seq<(Seq<char>, Seq<char>)>)
    requires
        forall|i: int| 0 <= i < rs.len() ==> classify_role_spec(rs[i].0) != RoleView::System,
    ensures
        normalize_spec(rs).system is None,
        normalize_spec(rs).turns.len() == rs.len(),
        forall|i: int|
            0 <= i < rs.len() ==> normalize_spec(rs).turns[i] == turn_of_rec(rs[i]),
{
    lemma_normalize_shape(rs);
    lemma_expected_order(rs, 0);
    lemma_expected_none(rs, 0);
}

proof fn lemma_expected_order(rs: Seq<(Seq<char>, Seq<char>)>, i: int)
    requires
        0 <= i <= rs.len(),
        forall|p: int| 0 <= p < rs.len() ==> classify_role_spec(rs[p].0) != RoleView::System,
    ensures
        expected_turns(rs, i, false).len() == rs.len() - i,
        forall|j: int|
            0 <= j < rs.len() - i ==> expected_turns(rs, i, false)[j] == turn_of_rec(rs[i + j]),
    decreases rs.len() - i,
{
    if i < rs.len() {
        lemma_expected_order(rs, i + 1);
        assert forall|j: int| 0 <= j < rs.len() - i implies expected_turns(rs, i, false)[j]
            == turn_of_rec(rs[i + j]) by {
            if j > 0 {
                assert(expected_turns(rs, i, false)[j] == expected_turns(rs, i + 1, false)[j
                    - 1]);
            }
        }
    }
}

proof fn lemma_expected_none(rs: Seq<(Seq<char>, Seq<char>)>, i: int)
    requires
        0 <= i <= rs.len(),
        forall|p: int| 0 <= p < rs.len() ==> classify_role_spec(rs[p].0) != RoleView::System,
    ensures
        expected_sys(rs, i) is None,
    decreases rs.len() - i,
{
    if i < rs.len() {
        lemma_expected_none(rs, i + 1);
    }
}

/// System demotion: when the first system record sits at `k1` and a second
/// one at `k2`, the conversation's system slot holds the first one's
/// canonical content, and the second one appears as the turn at `k2 - 1`,
/// demoted to the `System (extra)` label with its own canonical content.
pub proof fn lemma_system_demotion(rs: Seq<(Seq<char>, Seq<char>)>, k1: int, k2: int)
    requires
        0 <= k1 < k2 < rs.len(),
        classify_role_spec(rs[k1].0) == RoleView::System,
        classify_role_spec(rs[k2].0) == RoleView::System,
        forall|p: int| 0 <= p < k1 ==> classify_role_spec(rs[p].0) != RoleView::System,
    ensures
        normalize_spec(rs).system == Some(canon_content(rs[k1].1)),
        normalize_spec(rs).turns.len() == rs.len() - 1,
        normalize_spec(rs).turns[k2 - 1] == (TurnView {
            role: RoleView::Other("System (extra)"@),
            content: canon_content(rs[k2].1),
        }),
{
    lemma_normalize_shape(rs);
    lemma_expected_sys_first(rs, 0, k1);
    lemma_expected_turns_split(rs, 0, k1);
    lemma_expected_turns_taken(rs, k1 + 1);
    assert(expected_turns(rs, 0, false)[k2 - 1] == expected_turns(rs, k1 + 1, true)[k2 - 1
        - k1]);
    assert(expected_turns(rs, k1 + 1, true)[k2 - 1 - k1] == turn_of_rec(rs[k2]));
}

proof fn lemma_expected_sys_first(rs: Seq<(Seq<char>, Seq<char>)>, i: int, k: int)
    requires
        0 <= i <= k < rs.len(),
        classify_role_spec(rs[k].0) == RoleView::System,
        forall|p: int| i <= p < k ==> classify_role_spec(rs[p].0) != RoleView::System,
    ensures
        expected_sys(rs, i) == Some(canon_content(rs[k].1)),
    decreases k - i,
{
    if i < k {
        lemma_expected_sys_first(rs, i + 1, k);
    }
}

/// Up to the first system record, expected turns are the records themselves,
/// followed by the turns after the absorbed system record.
proof fn lemma_expected_turns_split(rs: Seq<(Seq<char>, Seq<char>)>, i: int, k: int)
    requires
        0 <= i <= k < rs.len(),
        classify_role_spec(rs[k].0) == RoleView::System,
        forall|p: int| i <= p < k ==> classify_role_spec(rs[p].0) != RoleView::System,
    ensures
        expected_turns(rs, i, false).len() == rs.len() - i - 1,
        forall|j: int|
            0 <= j < k - i ==> expected_turns(rs, i, false)[j] == turn_of_rec(rs[i + j]),
        forall|j: int|
            k - i <= j < rs.len() - i - 1 ==> expected_turns(rs, i, false)[j] == expected_turns(
                rs,
                k + 1,
                true,
            )[j - (k - i)],
    decreases k - i,
{
    if i == k {
        lemma_expected_turns_taken(rs, k + 1);
    } else {
        lemma_expected_turns_split(rs, i + 1, k);
        assert forall|j: int| 0 <= j < k - i implies expected_turns(rs, i, false)[j]
            == turn_of_rec(rs[i + j]) by {
            if j > 0 {
                assert(expected_turns(rs, i, false)[j] == expected_turns(rs, i + 1, false)[j
                    - 1]);
            }
        }
        assert forall|j: int| k - i <= j < rs.len() - i - 1 implies expected_turns(
            rs,
            i,
            false,
        )[j] == expected_turns(rs, k + 1, true)[j - (k - i)] by {
            assert(expected_turns(rs, i, false)[j] == expected_turns(rs, i + 1, false)[j - 1]);
        }
    }
}

} // verus!
