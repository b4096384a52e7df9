use vstd::prelude::*;

verus! {

/// An opaque identifier for a previously recorded violation; equality is the
/// equality of the identifier text.
pub struct ViolationIdentifier {
    pub key: String,
}

impl View for ViolationIdentifier {
    type V = Seq<char>;

    open spec fn view(&self) -> Seq<char> {
        self.key@
    }
}

impl Clone for ViolationIdentifier {
    fn clone(&self) -> (r: Self)
        ensures
            r@ == self@,
    {
        ViolationIdentifier { key: self.key.clone() }
    }
}

impl PartialEq for ViolationIdentifier {
    fn eq(&self, other: &Self) -> (r: bool) {
        self.key == other.key
    }
}

impl vstd::std_specs::cmp::PartialEqSpecImpl for ViolationIdentifier {
    open spec fn obeys_eq_spec() -> bool {
        true
    }

    open spec fn eq_spec(&self, other: &Self) -> bool {
        self.key@ == other.key@
    }
}

/// A unit of ownership boundary: a named package with its configuration file
/// and the violations previously recorded against it.
pub struct Pack {
    pub name: String,
    pub yml: String,
    pub violations: Vec<ViolationIdentifier>,
}

/// The mathematical value of a `Pack`.
pub struct PackView {
    pub name: Seq<char>,
    pub yml: Seq<char>,
    pub violations: Seq<Seq<char>>,
}

impl View for Pack {
    type V = PackView;

    open spec fn view(&self) -> PackView {
        PackView {
            name: self.name@,
            yml: self.yml@,
            violations: self.violations@.map_values(|v: ViolationIdentifier| v@),
        }
    }
}

impl Clone for Pack {
    fn clone(&self) -> (r: Self)
        ensures
            r@ == self@,
    {
        let mut violations: Vec<ViolationIdentifier> = Vec::new();
        let mut i: usize = 0;
        while i < self.violations.len()
            invariant
                i <= self.violations@.len(),
                violations@.len() == i as int,
                forall|j: int| 0 <= j < i ==> violations@[j]@ == self.violations@[j]@,
            decreases self.violations@.len() - i,
        {
            violations.push(self.violations[i].clone());
            i = i + 1;
        }
        let r = Pack { name: self.name.clone(), yml: self.yml.clone(), violations };
        proof {
            assert(r@.violations =~= self@.violations);
        }
        r
    }
}

} // verus!
