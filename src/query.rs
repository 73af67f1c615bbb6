//! Listing punches: date bounds combined as a union, then a tag filter.

use vstd::prelude::*;

use crate::pnch::{views, Pnch, PnchView, Pnchs};
use crate::text::str_eq;
use crate::time::Date;

verus! {

/// Whether a date passes the date bounds of a listing: any one bound that
/// is given lets it pass (`since` and `last` from a date on, `range` between
/// two dates, both included); with no bound at all every date passes.
pub open spec fn date_passes(
    d: Date,
    since: Option<Date>,
    last: Option<Date>,
    range: Option<(Date, Date)>,
) -> bool {
    ||| (since is None && last is None && range is None)
    ||| (since matches Some(s) && s.rank() <= d.rank())
    ||| (last matches Some(l) && l.rank() <= d.rank())
    ||| (range matches Some((f, t)) && f.rank() <= d.rank() && d.rank() <= t.rank())
}

/// Whether a punch passes the tag filter: with a filter, only a punch whose
/// tag has exactly that text passes.
pub open spec fn tag_passes(p: PnchView, tag: Option<Seq<char>>) -> bool {
    match tag {
        Some(t) => p.tag matches Some(pt) && pt.text == t,
        None => true,
    }
}

/// Whether a punch is listed: it passes the date bounds, and then the tag
/// filter.
pub open spec fn listed(
    p: PnchView,
    since: Option<Date>,
    last: Option<Date>,
    range: Option<(Date, Date)>,
    tag: Option<Seq<char>>,
) -> bool {
    date_passes(p.date, since, last, range) && tag_passes(p, tag)
}

/// The punches of `s` that are listed, in order.
pub open spec fn listing(
    s: Seq<PnchView>,
    since: Option<Date>,
    last: Option<Date>,
    range: Option<(Date, Date)>,
    tag: Option<Seq<char>>,
) -> Seq<PnchView>
    decreases s.len(),
{
    if s.len() == 0 {
        Seq::empty()
    } else {
        let rest = listing(s.drop_first(), since, last, range, tag);
        if listed(s[0], since, last, range, tag) {
            seq![s[0]] + rest
        } else {
            rest
        }
    }
}

proof fn lemma_listing_members(
    s: Seq<PnchView>,
    since: Option<Date>,
    last: Option<Date>,
    range: Option<(Date, Date)>,
    tag: Option<Seq<char>>,
)
    ensures
        forall|p: PnchView|
            #[trigger] listing(s, since, last, range, tag).contains(p) <==> s.contains(p) && listed(
                p,
                since,
                last,
                range,
                tag,
            ),
    decreases s.len(),
{
    if s.len() > 0 {
        let t = s.drop_first();
        lemma_listing_members(t, since, last, range, tag);
        let l = listing(s, since, last, range, tag);
        let lt = listing(t, since, last, range, tag);
        assert forall|p: PnchView| l.contains(p) <==> s.contains(p) && listed(
            p,
            since,
            last,
            range,
            tag,
        ) by {
            assert(s =~= seq![s[0]] + t);
            if s.contains(p) && p != s[0] {
                let i = choose|i: int| 0 <= i < s.len() && s[i] == p;
                assert(t[i - 1] == p);
            }
            if t.contains(p) {
                let i = choose|i: int| 0 <= i < t.len() && t[i] == p;
                assert(s[i + 1] == p);
            }
            if listed(s[0], since, last, range, tag) {
                assert(l == seq![s[0]] + lt);
                if lt.contains(p) {
                    let i = choose|i: int| 0 <= i < lt.len() && lt[i] == p;
                    assert(l[i + 1] == p);
                }
                if l.contains(p) && p != s[0] {
                    let i = choose|i: int| 0 <= i < l.len() && l[i] == p;
                    assert(lt[i - 1] == p);
                }
                if p == s[0] {
                    assert(l[0] == p);
                }
            }
        }
    }
}

/// Date bounds are a union: a punch that passes one date bound is listed
/// whatever the other bounds are, as long as it passes the tag filter.
pub proof fn lemma_listing_date_union(
    s: Seq<PnchView>,
    p: PnchView,
    since: Option<Date>,
    last: Option<Date>,
    range: Option<(Date, Date)>,
    tag: Option<Seq<char>>,
)
    requires
        s.contains(p),
        tag_passes(p, tag),
        (since matches Some(d) && d.rank() <= p.date.rank()) || (last matches Some(d) && d.rank()
            <= p.date.rank()) || (range matches Some((f, t)) && f.rank() <= p.date.rank()
            <= t.rank()),
    ensures
        listing(s, since, last, range, tag).contains(p),
{
    lemma_listing_members(s, since, last, range, tag);
}

/// The tag filter narrows whatever the date bounds let through: with a tag
/// filter, no punch without a tag is listed, and every listed punch carries
/// that tag.
pub proof fn lemma_listing_tag_intersection(
    s: Seq<PnchView>,
    since: Option<Date>,
    last: Option<Date>,
    range: Option<(Date, Date)>,
    tag: Seq<char>,
)
    ensures
        forall|p: PnchView|
            #[trigger] listing(s, since, last, range, Some(tag)).contains(p) ==> (p.tag matches Some(
                t,
            ) && t.text == tag),
        forall|p: PnchView|
            p.tag is None ==> !#[trigger] listing(s, since, last, range, Some(tag)).contains(p),
{
    lemma_listing_members(s, since, last, range, Some(tag));
}

impl Pnchs {
    /// The punches that pass the date bounds (any one of those given) and
    /// then the tag filter, in order.
    pub fn filter(
        self,
        since: Option<Date>,
        last: Option<Date>,
        range: Option<(Date, Date)>,
        tag: Option<&str>,
    ) -> (r: Pnchs)
        ensures
            r@ == listing(
                self@,
                since,
                last,
                range,
                match tag {
                    Some(t) => Some(t@),
                    None => None,
                },
            ),
    {
        let ghost tag_view = match tag {
            Some(t) => Some(t@),
            None => None,
        };
        let mut rest = self.0;
        let mut out: Vec<Pnch> = Vec::new();
        assert(views(out@) + listing(views(rest@), since, last, range, tag_view) =~= listing(
            self@,
            since,
            last,
            range,
            tag_view,
        ));
        while rest.len() > 0
            invariant
                tag_view == match tag {
                    Some(t) => Some(t@),
                    None => None::<Seq<char>>,
                },
                views(out@) + listing(views(rest@), since, last, range, tag_view) == listing(
                    self@,
                    since,
                    last,
                    range,
                    tag_view,
                ),
            decreases rest.len(),
        {
            let ghost before = views(rest@);
            let p = rest.remove(0);
            assert(views(rest@) =~= before.drop_first());
            assert(before[0] == p@);
            let mut pass = match since {
                Some(s) => !p.date.is_before(&s),
                None => false,
            };
            pass = pass || match last {
                Some(l) => !p.date.is_before(&l),
                None => false,
            };
            pass = pass || match range {
                Some((f, t)) => !p.date.is_before(&f) && !t.is_before(&p.date),
                None => false,
            };
            pass = pass || (since.is_none() && last.is_none() && range.is_none());
            let tag_ok = match tag {
                Some(t) => match &p.tag {
                    Some(pt) => str_eq(pt.tag.as_str(), t),
                    None => false,
                },
                None => true,
            };
            if pass && tag_ok {
                let ghost before_out = views(out@);
                out.push(p);
                assert(views(out@) =~= before_out.push(p@));
                assert(views(out@) + listing(views(rest@), since, last, range, tag_view)
                    =~= before_out + (seq![p@] + listing(views(rest@), since, last, range, tag_view)));
            }
        }
        assert(views(out@) =~= views(out@) + listing(views(rest@), since, last, range, tag_view));
        Pnchs(out)
    }
}

} // verus!
