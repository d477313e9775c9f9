//! Change reporting.
//!
//! After a sync, each removed, reinstalled or newly installed distribution
//! yields one event. Events are emitted in a stable order: by package name
//! ascending, removals before additions, then by the displayed version.

use vstd::prelude::*;
use vstd::multiset::Multiset;
use crate::strutil::{lex_lt, str_lt, str_eq};

verus! {

/// What happened to one distribution.
#[derive(PartialEq, Eq, Structural, Clone, Copy)]
pub enum ChangeEventKind {
    /// The distribution was removed from the environment.
    Removed,
    /// The distribution was added to the environment.
    Added,
}

/// One line of the report.
pub struct ChangeEvent {
    pub name: String,
    pub version_text: String,
    pub kind: ChangeEventKind,
}

/// The sort key order: name, then removals before additions, then the
/// displayed version.
pub open spec fn event_le(a: &ChangeEvent, b: &ChangeEvent) -> bool {
    if a.name@ != b.name@ {
        lex_lt(a.name@, b.name@)
    } else if a.kind != b.kind {
        a.kind == ChangeEventKind::Removed
    } else {
        !lex_lt(b.version_text@, a.version_text@)
    }
}

/// Whether the report lines stand in their stable order.
pub open spec fn sorted_events(s: Seq<ChangeEvent>) -> bool {
    forall|i: int, j: int| 0 <= i < j < s.len() ==> event_le(#[trigger] &s[i], #[trigger] &s[j])
}

/// Compare two events in the stable report order.
fn event_le_exec(a: &ChangeEvent, b: &ChangeEvent) -> (r: bool)
    ensures
        r == event_le(a, b),
{
    if !str_eq(a.name.as_str(), b.name.as_str()) {
        str_lt(a.name.as_str(), b.name.as_str())
    } else if match (a.kind, b.kind) {
        (ChangeEventKind::Removed, ChangeEventKind::Removed) => false,
        (ChangeEventKind::Added, ChangeEventKind::Added) => false,
        _ => true,
    } {
        match a.kind {
            ChangeEventKind::Removed => true,
            ChangeEventKind::Added => false,
        }
    } else {
        !str_lt(b.version_text.as_str(), a.version_text.as_str())
    }
}

/// The stable order is total: any two events can be ordered.
proof fn lemma_le_total(a: &ChangeEvent, b: &ChangeEvent)
    ensures
        event_le(a, b) || event_le(b, a),
{
    if a.name@ != b.name@ {
        lemma_lex_connected(a.name@, b.name@);
    } else if a.kind != b.kind {
    } else {
        if lex_lt(b.version_text@, a.version_text@) && lex_lt(
            a.version_text@,
            b.version_text@,
        ) {
            lemma_lex_asym(a.version_text@, b.version_text@);
        }
    }
}

/// Two different texts compare in one direction or the other.
proof fn lemma_lex_connected(a: Seq<char>, b: Seq<char>)
    requires
        a != b,
    ensures
        lex_lt(a, b) || lex_lt(b, a),
    decreases a.len(),
{
    if b.len() == 0 {
        if a.len() == 0 {
            assert(a =~= b);
        }
        assert(a.len() > 0);
    } else if a.len() == 0 {
    } else if a[0] != b[0] {
        vstd::utf8::char_u32_cast(a[0], a[0] as u32);
        vstd::utf8::char_u32_cast(b[0], b[0] as u32);
        assert((a[0] as u32) != (b[0] as u32));
    } else {
        assert(a.subrange(1, a.len() as int) != b.subrange(1, b.len() as int)) by {
            if a.subrange(1, a.len() as int) == b.subrange(1, b.len() as int) {
                assert(a.subrange(1, a.len() as int).len() == a.len() - 1);
                assert(b.subrange(1, b.len() as int).len() == b.len() - 1);
                assert(a.len() == b.len());
                assert forall|i: int| 0 <= i < a.len() implies a[i] == b[i] by {
                    if i > 0 {
                        assert(a.subrange(1, a.len() as int)[i - 1] == b.subrange(
                            1,
                            b.len() as int,
                        )[i - 1]);
                    }
                }
                assert(a =~= b);
            }
        }
        lemma_lex_connected(a.subrange(1, a.len() as int), b.subrange(1, b.len() as int));
    }
}

/// The text order never holds in both directions.
proof fn lemma_lex_asym(a: Seq<char>, b: Seq<char>)
    requires
        lex_lt(a, b),
    ensures
        !lex_lt(b, a),
    decreases a.len(),
{
    if b.len() == 0 {
    } else if a.len() == 0 {
    } else if a[0] != b[0] {
    } else {
        lemma_lex_asym(a.subrange(1, a.len() as int), b.subrange(1, b.len() as int));
    }
}

/// The text order never puts a text below itself.
proof fn lemma_lex_irrefl(a: Seq<char>)
    ensures
        !lex_lt(a, a),
    decreases a.len(),
{
    if a.len() > 0 {
        lemma_lex_irrefl(a.subrange(1, a.len() as int));
    }
}

/// Every event stands at or below itself in the stable order.
proof fn lemma_le_refl(a: &ChangeEvent)
    ensures
        event_le(a, a),
{
    lemma_lex_irrefl(a.version_text@);
}

/// Arrange report lines in their stable order: by name, removals before
/// additions, then by displayed version. The lines handed in are exactly
/// the lines handed back: one report line per change event.
pub fn order_events(events: Vec<ChangeEvent>) -> (r: Vec<ChangeEvent>)
    ensures
        sorted_events(r@),
        r@.len() == events@.len(),
        r@.to_multiset() == events@.to_multiset(),
{
    let mut r: Vec<ChangeEvent> = Vec::new();
    let mut events = events;
    let ghost total = events@.len();
    let ghost ev0 = events@;
    proof {
        r@.to_multiset_ensures();
        assert(r@.to_multiset().add(events@.to_multiset()) =~= ev0.to_multiset());
    }
    while events.len() > 0
        invariant
            r@.len() + events@.len() == total,
            r@.to_multiset().add(events@.to_multiset()) == ev0.to_multiset(),
            sorted_events(r@),
            forall|i: int, j: int| 0 <= i < r@.len() && 0 <= j < events@.len() ==> event_le(
                #[trigger] &r@[i],
                #[trigger] &events@[j],
            ),
        decreases events@.len(),
    {
        // Take the least remaining event.
        let mut best: usize = 0;
        let mut m: usize = 1;
        proof {
            lemma_le_refl(&events@[0]);
        }
        while m < events.len()
            invariant
                best < events@.len(),
                m <= events@.len(),
                forall|j: int| 0 <= j < m ==> event_le(
                    &events@[best as int],
                    #[trigger] &events@[j],
                ),
            decreases events@.len() - m,
        {
            if !event_le_exec(&events[best], &events[m]) {
                proof {
                    lemma_le_total(&events@[best as int], &events@[m as int]);
                    assert forall|j: int| 0 <= j < m + 1 implies event_le(
                        &events@[m as int],
                        #[trigger] &events@[j],
                    ) by {
                        if j < m as int {
                            lemma_le_trans(
                                &events@[m as int],
                                &events@[best as int],
                                &events@[j],
                            );
                        } else {
                            lemma_le_refl(&events@[m as int]);
                        }
                    }
                }
                best = m;
            }
            m = m + 1;
        }
        let ghost pre = events@;
        let ghost rpre = r@;
        let e = events.remove(best);
        proof {
            assert(e == pre[best as int]);
            pre.to_multiset_ensures();
            rpre.to_multiset_ensures();
            assert(events@.to_multiset() =~= pre.to_multiset().remove(e));
            assert(rpre.push(e).to_multiset() =~= rpre.to_multiset().insert(e));
            assert forall|j: int| 0 <= j < events@.len() implies event_le(
                &e,
                #[trigger] &events@[j],
            ) by {
                if j < best as int {
                    assert(events@[j] == pre[j]);
                } else {
                    assert(events@[j] == pre[j + 1]);
                }
            }
        }
        let ghost r0 = r@;
        r.push(e);
        proof {
            assert(pre.to_multiset().contains(e)) by {
                pre.to_multiset_ensures();
                assert(pre.contains(e)) by {
                    assert(pre[best as int] == e);
                }
            }
            assert(r@.to_multiset().add(events@.to_multiset()) =~= ev0.to_multiset());
            assert forall|i: int, j: int| 0 <= i < j < r@.len() implies event_le(
                #[trigger] &r@[i],
                #[trigger] &r@[j],
            ) by {
                if j < r0.len() {
                } else {
                    assert(r@[j] == e);
                }
            }
        }
    }
    proof {
        events@.to_multiset_ensures();
        assert(events@.to_multiset() =~= Multiset::empty());
        assert(r@.to_multiset() =~= ev0.to_multiset());
    }
    r
}

/// The stable order is transitive.
proof fn lemma_le_trans(a: &ChangeEvent, b: &ChangeEvent, c: &ChangeEvent)
    requires
        event_le(a, b),
        event_le(b, c),
    ensures
        event_le(a, c),
{
    if a.name@ != b.name@ || b.name@ != c.name@ || a.name@ != c.name@ {
        lemma_lex_order(a.name@, b.name@, c.name@);
    }
    if a.name@ == c.name@ && a.name@ != b.name@ {
        assert(lex_lt(a.name@, b.name@));
        assert(b.name@ != c.name@);
        assert(lex_lt(b.name@, c.name@));
        lemma_lex_trans(a.name@, b.name@, c.name@);
        lemma_lex_irrefl(a.name@);
        assert(false);
    }
    if a.name@ == b.name@ && b.name@ == c.name@ && a.kind != c.kind {
        if a.kind != b.kind {
            assert(a.kind == ChangeEventKind::Removed);
        } else {
            assert(b.kind != c.kind);
            assert(b.kind == ChangeEventKind::Removed);
        }
    }
    if a.name@ == b.name@ && b.name@ == c.name@ && a.kind == b.kind && b.kind == c.kind {
        if lex_lt(c.version_text@, a.version_text@) {
            lemma_lex_connected_or_eq(a.version_text@, b.version_text@);
            if lex_lt(a.version_text@, b.version_text@) {
                lemma_lex_trans(c.version_text@, a.version_text@, b.version_text@);
            } else if a.version_text@ == b.version_text@ {
            } else {
            }
            assert(false);
        }
    }
}

/// Mixed-name transitivity facts for the lexicographic order.
proof fn lemma_lex_order(a: Seq<char>, b: Seq<char>, c: Seq<char>)
    ensures
        (lex_lt(a, b) && lex_lt(b, c)) ==> lex_lt(a, c),
        (lex_lt(a, b) && b == c) ==> lex_lt(a, c),
        (a == b && lex_lt(b, c)) ==> lex_lt(a, c),
{
    if lex_lt(a, b) && lex_lt(b, c) {
        lemma_lex_trans(a, b, c);
    }
}

/// The text order is transitive.
proof fn lemma_lex_trans(a: Seq<char>, b: Seq<char>, c: Seq<char>)
    requires
        lex_lt(a, b),
        lex_lt(b, c),
    ensures
        lex_lt(a, c),
    decreases a.len() + b.len() + c.len(),
{
    if b.len() == 0 {
    } else if c.len() == 0 {
    } else if a.len() == 0 {
    } else {
        if a[0] != b[0] {
            if b[0] != c[0] {
            } else {
            }
        } else {
            if b[0] != c[0] {
            } else {
                lemma_lex_trans(
                    a.subrange(1, a.len() as int),
                    b.subrange(1, b.len() as int),
                    c.subrange(1, c.len() as int),
                );
            }
        }
    }
}

/// Two texts are ordered or equal.
proof fn lemma_lex_connected_or_eq(a: Seq<char>, b: Seq<char>)
    ensures
        lex_lt(a, b) || lex_lt(b, a) || a == b,
{
    if a != b {
        lemma_lex_connected(a, b);
    }
}

} // verus!
