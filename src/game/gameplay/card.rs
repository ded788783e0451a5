use rand::Rng;
use vstd::prelude::*;

verus! {

/// The six elements, in the order of their cycle.
#[derive(Debug, Clone, Copy, PartialEq, Eq, Structural)]
pub enum Element {
    Water,
    Fire,
    Wood,
    Earth,
    Air,
    Energy,
}

/// Position of an element in the cycle.
pub open spec fn element_index(e: Element) -> nat {
    match e {
        Element::Water => 0,
        Element::Fire => 1,
        Element::Wood => 2,
        Element::Earth => 3,
        Element::Air => 4,
        Element::Energy => 5,
    }
}

/// How far apart two elements stand in the cycle order Water, Fire, Wood,
/// Earth, Air, Energy, counted without wrapping round.
pub open spec fn span(a: Element, b: Element) -> int {
    let i = element_index(a) as int;
    let j = element_index(b) as int;
    if i <= j {
        j - i
    } else {
        i - j
    }
}

/// The compatibility coefficient of `new` played on `prev`, counted in
/// quarters (4 stands for 1.0); it does not depend on which of the two was
/// played first.
///
/// Energy on either side gives 1.0. Between the five plain elements, with d
/// their distance in the cycle order (without wrapping), the coefficient is
/// 0.50 + (5 - a) / 4, where a is d moved one step away from the half-cycle
/// point (d + 1 above 2, d - 1 otherwise), and never more than 1.0. So the
/// same element and neighbours (d <= 1), and elements two apart, give 1.0;
/// elements three apart (half a cycle of six: Water and Earth, Fire and Air)
/// give 0.75; the farthest pair without wrapping, Water and Air, gives 0.50.
pub open spec fn coefficient_quarters(new: Element, prev: Element) -> nat {
    if new == Element::Energy || prev == Element::Energy {
        4
    } else {
        let d = span(new, prev);
        let adjusted = if d > 2 {
            d + 1
        } else {
            d - 1
        };
        let q = 2 + (5 - adjusted);
        if q > 4 {
            4
        } else {
            q as nat
        }
    }
}

impl Element {
    pub fn index(&self) -> (r: usize)
        ensures
            r == element_index(*self),
    {
        match self {
            Element::Water => 0,
            Element::Fire => 1,
            Element::Wood => 2,
            Element::Earth => 3,
            Element::Air => 4,
            Element::Energy => 5,
        }
    }

    /// The coefficient of this element played on `other`, in quarters.
    pub fn coefficient(&self, other: Element) -> (r: u8)
        ensures
            r == coefficient_quarters(*self, other),
            2 <= r <= 4,
    {
        if *self == Element::Energy || other == Element::Energy {
            return 4;
        }
        let pos = self.index();
        let other_pos = other.index();
        let distance: usize = if pos <= other_pos {
            other_pos - pos
        } else {
            pos - other_pos
        };
        if distance <= 2 {
            4
        } else if distance == 3 {
            3
        } else {
            2
        }
    }
}

/// What a card does once it is played.
#[derive(Debug, Clone, Copy, PartialEq, Eq, Structural)]
pub enum Effect {
    Atk(u8),
    Flow,
    Stun,
    Add(u8),
}

/// A card: an element and an effect.
#[derive(Debug, Clone, Copy, PartialEq, Eq, Structural)]
pub struct Card {
    pub element: Element,
    pub effect: Effect,
}

/// Attack power that a card presents to the card played on it: its own
/// power for an attack, 1 for any other effect.
pub open spec fn defence_of(c: Card) -> nat {
    match c.effect {
        Effect::Atk(p) => p as nat,
        _ => 1,
    }
}

/// `x / 4` rounded to the nearest integer, halves away from zero.
pub open spec fn round_quarters(x: nat) -> nat {
    (x + 2) / 4
}

/// Whether `new` may be played on `prev`.
pub open spec fn playable(new: Card, prev: Card) -> bool {
    let q = coefficient_quarters(new.element, prev.element);
    match new.effect {
        Effect::Atk(p) => round_quarters(p as nat * q) >= defence_of(prev),
        _ => q >= 4,
    }
}

/// Whether a card is one that the deck deals: attack power 1 to 12, and 1 to
/// 4 cards for an addition.
pub open spec fn dealt_card(c: Card) -> bool {
    match c.effect {
        Effect::Atk(p) => 1 <= p <= 12,
        Effect::Add(n) => 1 <= n <= 4,
        _ => true,
    }
}

impl Card {
    pub fn new(element: Element, effect: Effect) -> (r: Card)
        ensures
            r.element == element,
            r.effect == effect,
    {
        Card { element, effect }
    }

    /// Plays this card on `card`, the card played before it; on success the
    /// effect of this card comes back.
    pub fn play(&self, card: Card) -> (r: Result<Effect, ()>)
        ensures
            r is Ok <==> playable(*self, card),
            r is Ok ==> r == Ok::<Effect, ()>(self.effect),
    {
        let coef = self.element.coefficient(card.element);
        let other_power: u8 = match card.effect {
            Effect::Atk(power) => power,
            _ => 1,
        };
        match self.effect {
            Effect::Atk(power) => {
                assert(power as u32 * coef as u32 <= 255 * 4) by (nonlinear_arith)
                    requires
                        power <= 255,
                        coef <= 4,
                ;
                let scaled: u32 = (power as u32 * coef as u32 + 2) / 4;
                if scaled < other_power as u32 {
                    return Err(());
                }
                Ok(Effect::Atk(power))
            },
            effect => {
                if coef < 4 {
                    return Err(());
                }
                Ok(effect)
            },
        }
    }
}

/// Relies on rand's `Rng::gen_range` over the thread-local generator: a value
/// drawn from `0..bound` (which panics on an empty range).
#[verifier::external_body]
fn random_below(bound: u8) -> (r: u8)
    requires
        bound > 0,
    ensures
        r < bound,
{
    rand::thread_rng().gen_range(0..bound)
}

/// An element drawn uniformly from all six.
pub fn random_element() -> Element {
    match random_below(6) {
        0 => Element::Water,
        1 => Element::Fire,
        2 => Element::Wood,
        3 => Element::Earth,
        4 => Element::Air,
        _ => Element::Energy,
    }
}

/// An effect drawn from the deck: an attack of power 1 to 12 in 60 cases of
/// 72, a flow or a stun in 4 each, an addition of 1 to 4 cards in 4.
pub fn random_effect() -> (r: Effect)
    ensures
        dealt_card(Card { element: Element::Energy, effect: r }),
{
    let roll = random_below(72);
    if roll < 60 {
        Effect::Atk(random_below(12) + 1)
    } else if roll < 64 {
        Effect::Flow
    } else if roll < 68 {
        Effect::Stun
    } else {
        Effect::Add(random_below(4) + 1)
    }
}

/// A card drawn from the deck.
pub fn random_card() -> (r: Card)
    ensures
        dealt_card(r),
{
    Card { element: random_element(), effect: random_effect() }
}

/// An element played on itself has coefficient 1.0.
pub proof fn lemma_same_element(e: Element)
    ensures
        coefficient_quarters(e, e) == 4,
{
}

/// Energy, on either side of a play, has coefficient 1.0 with every element.
pub proof fn lemma_energy_matches_all(x: Element)
    ensures
        coefficient_quarters(Element::Energy, x) == 4,
        coefficient_quarters(x, Element::Energy) == 4,
{
}

/// The coefficient is the same whichever of the two elements was played
/// first, and it is 1.0, 0.75 or 0.50.
pub proof fn lemma_coefficient_symmetric(a: Element, b: Element)
    ensures
        coefficient_quarters(a, b) == coefficient_quarters(b, a),
        coefficient_quarters(a, b) == 2 || coefficient_quarters(a, b) == 3
            || coefficient_quarters(a, b) == 4,
{
}

/// Neighbours in the cycle order have coefficient 1.0; Water and Earth, and
/// Fire and Air, half a cycle apart, have 0.75; Water and Air have 0.50, and
/// no other pair does.
pub proof fn lemma_coefficient_values(a: Element, b: Element)
    ensures
        span(a, b) == 1 ==> coefficient_quarters(a, b) == 4,
        span(a, b) == 3 && a != Element::Energy && b != Element::Energy ==> coefficient_quarters(
            a,
            b,
        ) == 3,
        coefficient_quarters(Element::Water, Element::Earth) == 3,
        coefficient_quarters(Element::Fire, Element::Air) == 3,
        coefficient_quarters(Element::Water, Element::Air) == 2,
        coefficient_quarters(a, b) == 2 <==> (a == Element::Water && b == Element::Air) || (a
            == Element::Air && b == Element::Water),
{
}

} // verus!
