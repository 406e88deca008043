//! What runs before a request is resolved.

use crate::httprequest::HttpRequest;
use crate::httpresponse::HttpResponse;
use crate::routes::accepts_all;
use vstd::prelude::*;

verus! {

/// Callbacks that see every request, in the order in which they were added.
pub struct MiddlewareChain<M: Fn(&mut HttpRequest, &mut HttpResponse)> {
    items: Vec<M>,
}

impl<M: Fn(&mut HttpRequest, &mut HttpResponse)> MiddlewareChain<M> {
    /// What holds of every chain: each member may be called on every request
    /// and response.
    #[verifier::type_invariant]
    pub closed spec fn well_formed(&self) -> bool {
        forall|i: int| 0 <= i < self.items@.len() ==> accepts_all(#[trigger] self.items@[i])
    }

    /// The members, first added first.
    pub closed spec fn view(&self) -> Seq<M> {
        self.items@
    }

    /// A chain without members.
    pub fn new() -> (chain: Self)
        ensures
            chain@ == Seq::<M>::empty(),
    {
        MiddlewareChain { items: Vec::new() }
    }

    /// Adds `middleware` behind the members that are there.
    pub fn add_middleware(&mut self, middleware: M)
        requires
            accepts_all(middleware),
        ensures
            final(self)@ == old(self)@.push(middleware),
    {
        proof {
            use_type_invariant(&*self);
        }
        let mut items: Vec<M> = Vec::new();
        std::mem::swap(&mut items, &mut self.items);
        items.push(middleware);
        self.items = items;
    }

    /// Calls every member once, in order, each on what the one before it
    /// left. No member is passed over, whatever the response holds.
    ///
    /// In the contract `reqs` and `ress` are the request and the response
    /// before the first call, between each two calls and after the last;
    /// `rs` and `ss` are the references that each call was given.
    pub fn run(&self, req: &mut HttpRequest, res: &mut HttpResponse)
        ensures
            exists|
                reqs: Seq<HttpRequest>,
                ress: Seq<HttpResponse>,
                rs: Seq<&mut HttpRequest>,
                ss: Seq<&mut HttpResponse>,
            |
                {
                    &&& #[trigger] called_in_order(self@, reqs, ress, rs, ss)
                    &&& forall|i: int|
                        0 <= i < self@.len() ==> *final(#[trigger] rs[i]) == reqs[i + 1]
                            && *final(ss[i]) == ress[i + 1]
                    &&& reqs[0] == *old(req)
                    &&& ress[0] == *old(res)
                    &&& reqs.last() == *final(req)
                    &&& ress.last() == *final(res)
                },
    {
        proof {
            use_type_invariant(self);
        }
        let n: usize = self.items.len();
        let mut k: usize = 0;
        proof {
            assert(called_in_order(
                self.items@.take(0),
                seq![*req],
                seq![*res],
                Seq::<&mut HttpRequest>::empty(),
                Seq::<&mut HttpResponse>::empty(),
            ));
        }
        while k < n
            invariant
                n == self.items@.len(),
                0 <= k <= n,
                self.well_formed(),
                exists|
                    reqs: Seq<HttpRequest>,
                    ress: Seq<HttpResponse>,
                    rs: Seq<&mut HttpRequest>,
                    ss: Seq<&mut HttpResponse>,
                |
                    {
                        &&& #[trigger] called_in_order(
                            self.items@.take(k as int),
                            reqs,
                            ress,
                            rs,
                            ss,
                        )
                        &&& forall|i: int|
                            0 <= i < k ==> *final(#[trigger] rs[i]) == reqs[i + 1]
                                && *final(ss[i]) == ress[i + 1]
                        &&& reqs[0] == *old(req)
                        &&& ress[0] == *old(res)
                        &&& reqs.last() == *req
                        &&& ress.last() == *res
                    },
            decreases n - k,
        {
            let ghost req_before = *req;
            let ghost res_before = *res;
            assert(accepts_all(self.items@[k as int]));
            (self.items[k])(req, res);
            proof {
                let (reqs, ress, rs, ss) = choose|
                    reqs: Seq<HttpRequest>,
                    ress: Seq<HttpResponse>,
                    rs: Seq<&mut HttpRequest>,
                    ss: Seq<&mut HttpResponse>,
                |
                    {
                        &&& #[trigger] called_in_order(
                            self.items@.take(k as int),
                            reqs,
                            ress,
                            rs,
                            ss,
                        )
                        &&& forall|i: int|
                            0 <= i < k ==> *final(#[trigger] rs[i]) == reqs[i + 1]
                                && *final(ss[i]) == ress[i + 1]
                        &&& reqs[0] == *old(req)
                        &&& ress[0] == *old(res)
                        &&& reqs.last() == req_before
                        &&& ress.last() == res_before
                    };
                let (r, s) = choose|r: &mut HttpRequest, s: &mut HttpResponse|
                    {
                        &&& *r == req_before
                        &&& *s == res_before
                        &&& *final(r) == *req
                        &&& *final(s) == *res
                        &&& #[trigger] call_ensures(self.items@[k as int], (r, s), ())
                    };
                let before = self.items@.take(k as int);
                let now = self.items@.take(k + 1);
                let reqs2 = reqs.push(*req);
                let ress2 = ress.push(*res);
                let rs2 = rs.push(r);
                let ss2 = ss.push(s);
                assert forall|i: int| 0 <= i < now.len() implies {
                    &&& #[trigger] call_ensures(now[i], (rs2[i], ss2[i]), ())
                    &&& *rs2[i] == reqs2[i]
                    &&& *ss2[i] == ress2[i]
                } by {
                    if i < k {
                        assert(call_ensures(before[i], (rs[i], ss[i]), ()));
                    }
                }
                assert(called_in_order(now, reqs2, ress2, rs2, ss2));
                assert forall|i: int| 0 <= i < k + 1 implies *final(#[trigger] rs2[i]) == reqs2[i
                    + 1] && *final(ss2[i]) == ress2[i + 1] by {
                    if i < k {
                        assert(rs2[i] == rs[i]);
                    }
                }
            }
            k = k + 1;
        }
        proof {
            assert(self.items@.take(k as int) =~= self@);
        }
    }
}

/// The members of `ms` were called one after the other: `reqs` and `ress`
/// hold the request and the response before the first call, between each two
/// calls and after the last, and call `i` was given the references `rs[i]`
/// and `ss[i]`, which held the request and the response before it. What a
/// call left behind its references is the state after it; a contract says so
/// beside this predicate, where the references can be asked for it.
pub open spec fn called_in_order<M: Fn(&mut HttpRequest, &mut HttpResponse)>(
    ms: Seq<M>,
    reqs: Seq<HttpRequest>,
    ress: Seq<HttpResponse>,
    rs: Seq<&mut HttpRequest>,
    ss: Seq<&mut HttpResponse>,
) -> bool {
    &&& reqs.len() == ms.len() + 1
    &&& ress.len() == ms.len() + 1
    &&& rs.len() == ms.len()
    &&& ss.len() == ms.len()
    &&& forall|i: int|
        0 <= i < ms.len() ==> {
            &&& #[trigger] call_ensures(ms[i], (rs[i], ss[i]), ())
            &&& *rs[i] == reqs[i]
            &&& *ss[i] == ress[i]
        }
}

} // verus!
