//! The Cesaro fractal: a square whose every side is, pass after pass,
//! replaced by four shorter sides that meet in a narrow spike.

use vstd::prelude::*;
use vstd::arithmetic::power::pow;
use crate::lindenmayer::{
    expansion,
    interpretation,
    lemma_expand_grows,
    motions_of,
    path_of,
    rewrite,
    rule_of,
    LindenmayerSystem,
    LindenmayerSystemDrawingParameters,
};
use crate::turtle::{Decimal, Distance, Point, Turtle, TurtleStep};

verus! {

/// The Cesaro fractal at a fixed number of rewriting passes.
#[derive(Copy, Clone, Debug, PartialEq, Eq)]
pub struct CesaroFractal {
    iterations: u64,
}

/// The symbols of the Cesaro grammar.
#[derive(Copy, Clone, Debug, PartialEq, Eq)]
pub enum LSA {
    /// Move forward.
    F,
    /// Corner of the square: turn left by a right angle.
    Q,
    /// Turn left by 85 degrees.
    L,
    /// Turn right by 85 degrees.
    R,
}

impl CesaroFractal {
    /// The fractal after `iterations` rewriting passes. Every number of
    /// passes is accepted.
    pub fn new(iterations: u64) -> (outcome: Result<CesaroFractal, &'static str>)
        ensures
            outcome is Ok,
            outcome->Ok_0.depth() == iterations,
    {
        let lcc = CesaroFractal { iterations: iterations };
        Ok(lcc)
    }

    /// The length of one forward move: a side of the square, of length one,
    /// divided by 2.2 once for every rewriting pass, so that the figure
    /// keeps its size while its sides multiply.
    pub open spec fn step_length(self) -> Distance {
        Distance {
            base: Decimal { thousandths: 1000 },
            scale_factor: Decimal { thousandths: 2200 },
            power: self.depth(),
        }
    }

    /// Returns the length of one forward move.
    pub fn distance_forward(self) -> (distance: Distance)
        ensures
            distance == self.step_length(),
    {
        Distance { base: Decimal::whole(1), scale_factor: Decimal::tenths(22), power: self.iterations }
    }
}

impl LindenmayerSystem<LSA> for CesaroFractal {
    /// The four sides of a square, each followed by its corner.
    open spec fn seed() -> Seq<LSA> {
        seq![LSA::F, LSA::Q, LSA::F, LSA::Q, LSA::F, LSA::Q, LSA::F, LSA::Q]
    }

    /// A side becomes four sides with a spike in the middle; a turn stays
    /// the turn it is.
    open spec fn production(symbol: LSA) -> Seq<LSA> {
        match symbol {
            LSA::F => seq![LSA::F, LSA::L, LSA::F, LSA::R, LSA::R, LSA::F, LSA::L, LSA::F],
            LSA::Q => seq![LSA::Q],
            LSA::L => seq![LSA::L],
            LSA::R => seq![LSA::R],
        }
    }

    fn initial() -> (lstr: Vec<LSA>) {
        vec![LSA::F, LSA::Q, LSA::F, LSA::Q, LSA::F, LSA::Q, LSA::F, LSA::Q]
    }

    fn apply_rule(lstr: LSA) -> (image: Vec<LSA>) {
        match lstr {
            LSA::F => vec![LSA::F, LSA::L, LSA::F, LSA::R, LSA::R, LSA::F, LSA::L, LSA::F],
            LSA::Q => vec![LSA::Q],
            LSA::L => vec![LSA::L],
            LSA::R => vec![LSA::R],
        }
    }
}

impl LindenmayerSystemDrawingParameters<LSA> for CesaroFractal {
    closed spec fn depth(&self) -> u64 {
        self.iterations
    }

    /// The turtle starts in the middle of the lower side of the unit square
    /// around the origin, heading along the x axis.
    open spec fn placement(&self) -> Seq<TurtleStep> {
        seq![
            TurtleStep::SetPos(
                Point { x: Decimal { thousandths: 0 }, y: Decimal { thousandths: (-500) as i64 } },
            ),
            TurtleStep::SetRad(Decimal { thousandths: 0 }),
        ]
    }

    open spec fn motions(&self, symbol: LSA) -> Seq<TurtleStep> {
        match symbol {
            LSA::F => seq![TurtleStep::Forward(self.step_length())],
            LSA::Q => seq![TurtleStep::TurnDeg(Decimal { thousandths: 90000 })],
            LSA::L => seq![TurtleStep::TurnDeg(Decimal { thousandths: 85000 })],
            LSA::R => seq![TurtleStep::TurnDeg(Decimal { thousandths: (-85000) as i64 })],
        }
    }

    proof fn lemma_motions_are_relative(&self, symbol: LSA) {
    }

    fn iteration(&self) -> (iterations: u64) {
        self.iterations
    }

    fn initialize_turtle(&self, turtle: &mut Turtle) {
        turtle.set_pos(Point { x: Decimal::whole(0), y: Decimal::tenths(-5) });
        turtle.set_rad(Decimal::whole(0));
        assert(turtle@ =~= old(turtle)@ + self.placement());
    }

    fn interpret_symbol(&self, symbol: LSA, turtle: &mut Turtle) {
        match symbol {
            LSA::F => turtle.forward(self.distance_forward()),
            LSA::Q => turtle.turn_deg(Decimal::whole(90)),
            LSA::L => turtle.turn_deg(Decimal::whole(85)),
            LSA::R => turtle.turn_deg(Decimal::whole(-85)),
        }
        assert(turtle@ =~= old(turtle)@ + self.motions(symbol));
    }
}

/// The number of sides in `word`: how often the symbol `F` occurs in it.
pub open spec fn sides(word: Seq<LSA>) -> nat
    decreases word.len(),
{
    if word.len() == 0 {
        0
    } else if word.last() is F {
        sides(word.drop_last()) + 1
    } else {
        sides(word.drop_last())
    }
}

/// The sides of two words side by side are those of both.
proof fn lemma_sides_concat(left: Seq<LSA>, right: Seq<LSA>)
    ensures
        sides(left + right) == sides(left) + sides(right),
    decreases right.len(),
{
    if right.len() == 0 {
        assert(left + right =~= left);
    } else {
        lemma_sides_concat(left, right.drop_last());
        assert((left + right).drop_last() =~= left + right.drop_last());
    }
}

/// The image of a side has four sides among its eight symbols; the image
/// of a turn is one symbol and has none.
proof fn lemma_image_counts(symbol: LSA)
    ensures
        sides(CesaroFractal::production(symbol)) == (if symbol is F { 4nat } else { 0nat }),
        CesaroFractal::production(symbol).len() == (if symbol is F { 8nat } else { 1nat }),
{
    reveal_with_fuel(sides, 9);
}

/// One pass turns every side into four and adds seven symbols for it;
/// everything else in the word stays.
proof fn lemma_rewrite_counts(word: Seq<LSA>)
    ensures
        sides(rewrite(rule_of::<LSA, CesaroFractal>(), word)) == 4 * sides(word),
        rewrite(rule_of::<LSA, CesaroFractal>(), word).len() == word.len() + 7 * sides(word),
    decreases word.len(),
{
    let rule = rule_of::<LSA, CesaroFractal>();
    if word.len() > 0 {
        let front = word.drop_last();
        let image = rule(word.last());
        lemma_rewrite_counts(front);
        front.lemma_flat_map_push(rule, word.last());
        assert(front.push(word.last()) =~= word);
        lemma_sides_concat(rewrite(rule, front), image);
        lemma_image_counts(word.last());
    }
}

/// Every symbol has an image, whatever the symbol: a side is replaced by the
/// eight symbols of the spike, and each turn by itself alone.
pub proof fn lemma_every_symbol_is_rewritten(symbol: LSA)
    ensures
        symbol is F ==> CesaroFractal::production(symbol) == seq![
            LSA::F,
            LSA::L,
            LSA::F,
            LSA::R,
            LSA::R,
            LSA::F,
            LSA::L,
            LSA::F,
        ],
        !(symbol is F) ==> CesaroFractal::production(symbol) == seq![symbol],
        1 <= CesaroFractal::production(symbol).len() <= 8,
{
}

/// No pass shortens the word of the Cesaro fractal.
pub proof fn lemma_cesaro_grows(passes: nat)
    ensures
        expansion::<LSA, CesaroFractal>(passes + 1).len() >= expansion::<LSA, CesaroFractal>(
            passes,
        ).len(),
{
    assert forall|symbol: LSA| (#[trigger] rule_of::<LSA, CesaroFractal>()(symbol)).len() >= 1 by {
        lemma_every_symbol_is_rewritten(symbol);
    }
    lemma_expand_grows(CesaroFractal::seed(), rule_of::<LSA, CesaroFractal>(), passes);
}

/// After `passes` passes the Cesaro word has `4 * 4 ^ passes` sides, and
/// `(28 * 4 ^ passes - 4) / 3` symbols in all.
pub proof fn lemma_cesaro_size(passes: nat)
    ensures
        sides(expansion::<LSA, CesaroFractal>(passes)) == 4 * pow(4, passes),
        3 * expansion::<LSA, CesaroFractal>(passes).len() == 28 * pow(4, passes) - 4,
    decreases passes,
{
    reveal(pow);
    if passes == 0 {
        reveal_with_fuel(sides, 9);
    } else {
        lemma_cesaro_size((passes - 1) as nat);
        lemma_rewrite_counts(expansion::<LSA, CesaroFractal>((passes - 1) as nat));
    }
}

/// Every symbol of the Cesaro word is one command to the turtle: the
/// commands of a word are as many as its symbols.
pub proof fn lemma_one_command_per_symbol(fractal: CesaroFractal, word: Seq<LSA>)
    ensures
        interpretation::<LSA, CesaroFractal>(fractal, word).len() == word.len(),
    decreases word.len(),
{
    if word.len() > 0 {
        lemma_one_command_per_symbol(fractal, word.drop_last());
        word.drop_last().lemma_flat_map_push(
            motions_of::<LSA, CesaroFractal>(fractal),
            word.last(),
        );
        assert(word.drop_last().push(word.last()) =~= word);
    }
}

/// The turtle program of the Cesaro fractal has two commands that place the
/// turtle and one command for every symbol of the expanded word.
pub proof fn lemma_cesaro_path_length(fractal: CesaroFractal)
    ensures
        3 * (path_of::<LSA, CesaroFractal>(fractal).len() - 2) == 28 * pow(
            4,
            fractal.depth() as nat,
        ) - 4,
{
    lemma_cesaro_size(fractal.depth() as nat);
    lemma_one_command_per_symbol(fractal, expansion::<LSA, CesaroFractal>(fractal.depth() as nat));
}

} // verus!
