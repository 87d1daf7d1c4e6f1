//! Curves given by the points of a polyline.
use vstd::prelude::*;

verus! {

/// A curve given by the points of a polyline, in order.
#[derive(Debug, PartialEq)]
pub struct PolylineCurve<P>(pub Vec<P>);

impl<P> View for PolylineCurve<P> {
    type V = Seq<P>;

    open spec fn view(&self) -> Seq<P> {
        self.0@
    }
}

/// The polylines of a wire's edges, as sequences of points.
pub open spec fn wire_view<P>(wire: Seq<PolylineCurve<P>>) -> Seq<Seq<P>> {
    wire.map_values(|c: PolylineCurve<P>| c@)
}

/// The wires of a face, each as the polylines of its edges.
pub open spec fn face_view<P>(wires: Seq<Vec<PolylineCurve<P>>>) -> Seq<Seq<Seq<P>>> {
    wires.map_values(|w: Vec<PolylineCurve<P>>| wire_view(w@))
}

impl<P: Copy> Clone for PolylineCurve<P> {
    fn clone(&self) -> (res: Self)
        ensures
            res@ == self@,
    {
        let n = self.0.len();
        let mut points: Vec<P> = Vec::new();
        let mut k: usize = 0;
        while k < n
            invariant
                n == self@.len(),
                k <= n,
                points@ == self@.take(k as int),
            decreases n - k,
        {
            points.push(self.0[k]);
            assert(self@.take(k as int + 1) =~= self@.take(k as int).push(self@[k as int]));
            k = k + 1;
        }
        assert(self@.take(n as int) =~= self@);
        PolylineCurve(points)
    }
}

impl<P> PolylineCurve<P> {
    /// The polyline through the points at which `division` divides `curve` over
    /// `range`, so that no chord strays from the curve by more than `tol`.
    pub fn from_curve<C, T, D>(curve: &C, range: (T, T), tol: T, division: &D) -> (res: PolylineCurve<
        P,
    >) where D: Fn(&C, (T, T), T) -> (Vec<T>, Vec<P>)
        requires
            call_requires(*division, (curve, range, tol)),
        ensures
            exists|parameters: Vec<T>| #[trigger]
                call_ensures(*division, (curve, range, tol), (parameters, res.0)),
    {
        let divided = division(curve, range, tol);
        let ghost parameters = divided.0;
        let res = PolylineCurve(divided.1);
        assert(call_ensures(*division, (curve, range, tol), (parameters, res.0)));
        res
    }
}

impl<P: Copy> PolylineCurve<P> {
    /// The number of points.
    pub fn len(&self) -> (n: usize)
        ensures
            n == self@.len(),
    {
        self.0.len()
    }

    /// Drops the last point, if there is one, and returns it.
    pub fn pop(&mut self) -> (last: Option<P>)
        ensures
            old(self)@.len() == 0 ==> last.is_none() && final(self)@ == old(self)@,
            old(self)@.len() > 0 ==> last == Some(old(self)@.last()) && final(self)@ == old(
                self,
            )@.drop_last(),
    {
        self.0.pop()
    }

    /// The same polyline run through in the opposite direction.
    pub fn inverse(&self) -> (res: PolylineCurve<P>)
        ensures
            res@ == self@.reverse(),
    {
        let n = self.0.len();
        let mut points: Vec<P> = Vec::new();
        let mut k: usize = 0;
        while k < n
            invariant
                n == self@.len(),
                k <= n,
                points@.len() == k,
                forall|i: int| 0 <= i < k ==> points@[i] == self@[n - 1 - i],
            decreases n - k,
        {
            points.push(self.0[n - 1 - k]);
            k = k + 1;
        }
        assert(points@ =~= self@.reverse());
        PolylineCurve(points)
    }
}

} // verus!
