use vstd::prelude::*;

verus! {

/// A unique entity of the world: a plain integer identity.
#[derive(Copy, Clone, Debug, PartialEq, Eq, Structural, Hash, PartialOrd, Ord)]
pub struct Entity(pub usize);

/// Szudzik's pairing of two integers, in the argument order it is given:
/// the larger first argument is squared and both are added; otherwise the
/// second argument is squared and the first added.
pub open spec fn pair_key(a: nat, b: nat) -> nat {
    if a >= b {
        a * a + a + b
    } else {
        a + b * b
    }
}

impl Entity {
    /// Combines two entities into one integer key with Szudzik's pairing
    /// function. The key depends on the order of the arguments.
    pub fn combine_key(self, other: Entity) -> (r: usize)
        requires
            pair_key(self.0 as nat, other.0 as nat) <= usize::MAX,
        ensures
            r == pair_key(self.0 as nat, other.0 as nat),
    {
        let a = self.0;
        let b = other.0;
        if a >= b {
            assert(a * a <= a * a + a + b) by (nonlinear_arith);
            a * a + a + b
        } else {
            assert(b * b <= a + b * b) by (nonlinear_arith);
            a + b * b
        }
    }
}

/// The value of a string of decimal digits.
pub open spec fn digits_value(s: Seq<char>) -> nat
    decreases s.len(),
{
    if s.len() == 0 {
        0
    } else {
        digits_value(s.drop_last()) * 10 + (s.last() as nat - '0' as nat) as nat
    }
}

/// The number a string denotes in decimal: an optional `+`, then at least
/// one ASCII digit and nothing else, with a value that fits in `usize`.
pub open spec fn decimal_usize(s: Seq<char>) -> Option<usize> {
    let d = if s.len() > 0 && s[0] == '+' {
        s.drop_first()
    } else {
        s
    };
    if d.len() > 0 && (forall|i: int| 0 <= i < d.len() ==> '0' <= #[trigger] d[i] <= '9')
        && digits_value(d) <= usize::MAX {
        Some(digits_value(d) as usize)
    } else {
        None
    }
}

/// Relies on `str::parse::<usize>`: it accepts exactly an optional `+`
/// followed by ASCII digits whose value fits, and returns that value.
#[verifier::external_body]
fn parse_usize(s: &str) -> (r: Option<usize>)
    ensures
        r == decimal_usize(s@),
{
    s.parse::<usize>().ok()
}

impl Entity {
    /// The entity whose id a string denotes in decimal, if it denotes one.
    pub fn parse(s: &str) -> (r: Option<Entity>)
        ensures
            r == match decimal_usize(s@) {
                Some(n) => Some(Entity(n)),
                None => None,
            },
    {
        match parse_usize(s) {
            Some(n) => Some(Entity(n)),
            None => None,
        }
    }
}

impl std::str::FromStr for Entity {
    type Err = &'static str;

    fn from_str(s: &str) -> Result<Self, Self::Err> {
        match Entity::parse(s) {
            Some(e) => Ok(e),
            None => Err("Invalid entity string"),
        }
    }
}

} // verus!
