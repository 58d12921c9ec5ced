//! The sidebar scoreboard of one player: which packets showing, moving,
//! hiding and editing it take. The caller sends the packets, in order.
use vstd::prelude::*;

verus! {

/// The number of lines of a scoreboard.
pub const LINES: usize = 15;

/// Where a scoreboard is displayed.
#[derive(Clone, Copy, Debug, PartialEq, Eq, Structural)]
pub enum ScoreboardDisplayPosition {
    List,
    Sidebar,
    BelowName,
}

/// A packet to send for the scoreboard objective.
#[derive(Debug)]
pub enum ScoreboardPacket {
    /// Creates the objective, an integer one.
    CreateObjective,
    /// Removes the objective.
    RemoveObjective,
    /// Displays the objective at a position.
    Display(ScoreboardDisplayPosition),
    /// Removes the score line with this text.
    RemoveLine(String),
    /// Adds a score line with this text, at this line.
    CreateLine(String, u8),
}

/// `text` followed by `n` spaces.
pub open spec fn padded(text: Seq<char>, n: nat) -> Seq<char>
    decreases n,
{
    if n == 0 {
        text
    } else {
        padded(text, (n - 1) as nat).push(' ')
    }
}

/// The length of the longest of `lines`.
pub open spec fn longest(lines: Seq<Seq<char>>) -> nat
    decreases lines.len(),
{
    if lines.len() == 0 {
        0
    } else {
        let rest = longest(lines.drop_last());
        if lines.last().len() > rest {
            lines.last().len()
        } else {
            rest
        }
    }
}

proof fn lemma_longest(lines: Seq<Seq<char>>, i: int)
    requires
        0 <= i < lines.len(),
    ensures
        lines[i].len() <= longest(lines),
    decreases lines.len(),
{
    if i < lines.len() - 1 {
        lemma_longest(lines.drop_last(), i);
    }
}

/// Relies on `String::push`: the character is appended.
#[verifier::external_body]
fn push_char(s: &mut String, c: char)
    ensures
        final(s)@ == old(s)@.push(c),
{
    s.push(c)
}

/// The state of a player's scoreboard.
#[derive(Debug)]
pub struct Scoreboard {
    position: ScoreboardDisplayPosition,
    shown: bool,
    lines: Vec<String>,
}

impl Scoreboard {
    pub closed spec fn position_spec(&self) -> ScoreboardDisplayPosition {
        self.position
    }

    pub closed spec fn shown_spec(&self) -> bool {
        self.shown
    }

    /// The text of each line.
    pub closed spec fn lines_spec(&self) -> Seq<Seq<char>> {
        self.lines@.map_values(|s: String| s@)
    }

    pub closed spec fn wf(&self) -> bool {
        self.lines@.len() == LINES
    }

    /// A hidden scoreboard on the sidebar, with empty lines.
    pub fn new() -> (r: Scoreboard)
        ensures
            r.wf(),
            r.position_spec() == ScoreboardDisplayPosition::Sidebar,
            !r.shown_spec(),
            r.lines_spec() == Seq::new(LINES as nat, |i: int| Seq::<char>::empty()),
    {
        let mut lines: Vec<String> = Vec::new();
        let mut i: usize = 0;
        while i < LINES
            invariant
                i <= LINES,
                lines@.len() == i,
                forall|j: int| 0 <= j < i ==> (#[trigger] lines@[j])@ == Seq::<char>::empty(),
            decreases LINES - i,
        {
            lines.push(String::new());
            i += 1;
        }
        let r = Scoreboard { position: ScoreboardDisplayPosition::Sidebar, shown: false, lines };
        assert(r.lines_spec() =~= Seq::new(LINES as nat, |i: int| Seq::<char>::empty()));
        r
    }

    /// Shows the scoreboard where it is hidden: creates the objective and
    /// displays it.
    pub fn show(&mut self) -> (r: Vec<ScoreboardPacket>)
        ensures
            final(self).shown_spec(),
            final(self).position_spec() == old(self).position_spec(),
            final(self).lines_spec() == old(self).lines_spec(),
            final(self).wf() == old(self).wf(),
            old(self).shown_spec() ==> r@.len() == 0,
            !old(self).shown_spec() ==> r@.len() == 2 && r@[0] is CreateObjective && r@[1]
                == ScoreboardPacket::Display(old(self).position_spec()),
    {
        let mut out: Vec<ScoreboardPacket> = Vec::new();
        if !self.shown {
            out.push(ScoreboardPacket::CreateObjective);
            out.push(ScoreboardPacket::Display(self.position));
            self.shown = true;
        }
        out
    }

    /// Removes the objective where the scoreboard is not shown; it stays
    /// not shown.
    pub fn conceal(&mut self) -> (r: Vec<ScoreboardPacket>)
        ensures
            *final(self) == *old(self),
            old(self).shown_spec() ==> r@.len() == 0,
            !old(self).shown_spec() ==> r@.len() == 1 && r@[0] is RemoveObjective,
    {
        let mut out: Vec<ScoreboardPacket> = Vec::new();
        if !self.shown {
            out.push(ScoreboardPacket::RemoveObjective);
            self.shown = false;
        }
        out
    }

    /// Moves the scoreboard to `position`; where it is shown, displays it
    /// there.
    pub fn display(&mut self, position: ScoreboardDisplayPosition) -> (r: Vec<ScoreboardPacket>)
        ensures
            final(self).position_spec() == position,
            final(self).shown_spec() == old(self).shown_spec(),
            final(self).lines_spec() == old(self).lines_spec(),
            final(self).wf() == old(self).wf(),
            (position != old(self).position_spec() && old(self).shown_spec()) ==> r@ == seq![
                ScoreboardPacket::Display(position),
            ],
            (position == old(self).position_spec() || !old(self).shown_spec()) ==> r@.len() == 0,
    {
        let mut out: Vec<ScoreboardPacket> = Vec::new();
        if position != self.position {
            self.position = position;
            if self.shown {
                out.push(ScoreboardPacket::Display(position));
            }
        }
        out
    }

    /// Empties line `line`, removing its score.
    pub fn clear_line(&mut self, line: u8) -> (r: Vec<ScoreboardPacket>)
        requires
            old(self).wf(),
            line < LINES,
        ensures
            final(self).wf(),
            final(self).position_spec() == old(self).position_spec(),
            final(self).shown_spec() == old(self).shown_spec(),
            final(self).lines_spec() == old(self).lines_spec().update(line as int, Seq::empty()),
            r@.len() == 1,
            r@[0] matches ScoreboardPacket::RemoveLine(t) && t@ == old(self).lines_spec()[line as int],
    {
        let old_text = self.lines[line as usize].clone();
        let mut out: Vec<ScoreboardPacket> = Vec::new();
        out.push(ScoreboardPacket::RemoveLine(old_text));
        self.lines.set(line as usize, String::new());
        assert(self.lines_spec() =~= old(self).lines_spec().update(line as int, Seq::empty()));
        out
    }

    /// Whether some line reads `text`.
    fn has_line(&self, text: &String) -> (r: bool)
        ensures
            r == self.lines_spec().contains(text@),
    {
        let mut i: usize = 0;
        while i < self.lines.len()
            invariant
                i <= self.lines@.len(),
                forall|j: int| 0 <= j < i ==> self.lines_spec()[j] != text@,
            decreases self.lines@.len() - i,
        {
            if self.lines[i] == *text {
                assert(self.lines_spec()[i as int] == text@);
                return true;
            }
            i += 1;
        }
        false
    }

    /// Sets line `line` to `text`. Scores are keyed by their text, so where
    /// another line reads the same, spaces are appended until none does.
    pub fn set_line(&mut self, line: u8, text: String) -> (r: Vec<ScoreboardPacket>)
        requires
            old(self).wf(),
            line < LINES,
        ensures
            final(self).wf(),
            final(self).position_spec() == old(self).position_spec(),
            final(self).shown_spec() == old(self).shown_spec(),
            text@ == old(self).lines_spec()[line as int] ==> *final(self) == *old(self) && r@.len()
                == 0,
            text@ != old(self).lines_spec()[line as int] ==> exists|n: nat|
                {
                    &&& !old(self).lines_spec().contains(#[trigger] padded(text@, n))
                    &&& forall|m: nat| m < n ==> old(self).lines_spec().contains(padded(text@, m))
                    &&& final(self).lines_spec() == old(self).lines_spec().update(
                        line as int,
                        padded(text@, n),
                    )
                    &&& r@.len() == 2
                    &&& r@[0] matches ScoreboardPacket::RemoveLine(t) && t@ == old(
                        self,
                    ).lines_spec()[line as int]
                    &&& r@[1] matches ScoreboardPacket::CreateLine(t, l) && t@ == padded(text@, n)
                        && l == line
                },
    {
        let mut text = text;
        if text == self.lines[line as usize] {
            return Vec::new();
        }
        let ghost t0 = text@;
        let ghost n: nat = 0;
        while self.has_line(&text)
            invariant
                self == old(self),
                text@ == padded(t0, n),
                forall|m: nat| m < n ==> old(self).lines_spec().contains(padded(t0, m)),
            decreases longest(self.lines_spec()) + 1 - text@.len(),
        {
            proof {
                let j = choose|j: int| 0 <= j < self.lines_spec().len() && self.lines_spec()[j] == text@;
                lemma_longest(self.lines_spec(), j);
            }
            push_char(&mut text, ' ');
            proof {
                n = n + 1;
            }
        }
        let old_text = self.lines[line as usize].clone();
        let mut out: Vec<ScoreboardPacket> = Vec::new();
        out.push(ScoreboardPacket::RemoveLine(old_text));
        let new_text = text.clone();
        self.lines.set(line as usize, text);
        out.push(ScoreboardPacket::CreateLine(new_text, line));
        assert(self.lines_spec() =~= old(self).lines_spec().update(line as int, padded(t0, n)));
        out
    }
}

} // verus!
