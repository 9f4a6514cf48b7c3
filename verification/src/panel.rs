use vstd::prelude::*;

use crate::ansi::{ansi_segments, parse_ansi, segments_view, AnsiColor};
use crate::applet::{interval_of_text, interval_value, step, well_formed, AppletView, ExecutorApplet, Message};
use crate::text::{decimal_chars, format_u64, push_char, trim, trim_chars};

verus! {

/// The text shown between two blocks in the panel: the separator without
/// surrounding white space, with one space on each side.
pub open spec fn display_separator(separator: Seq<char>) -> Seq<char> {
    seq![' '] + trim_chars(separator) + seq![' ']
}

/// The elements of the panel for the first `k` outputs: each output's styled
/// pieces, with an element holding the separator, in no color, between two
/// outputs.
pub open spec fn label_elements(outputs: Seq<Seq<char>>, separator: Seq<char>, k: int) -> Seq<
    Seq<(Seq<char>, Option<AnsiColor>)>,
>
    decreases k,
{
    if k <= 0 {
        Seq::empty()
    } else {
        label_elements(outputs, separator, k - 1) + (if k - 1 > 0 {
            seq![seq![(display_separator(separator), None::<AnsiColor>)]]
        } else {
            Seq::empty()
        }) + seq![ansi_segments(outputs[k - 1], None)]
    }
}

/// The styled pieces of each element, by value.
pub open spec fn elements_view(v: Seq<Vec<(String, Option<AnsiColor>)>>) -> Seq<
    Seq<(Seq<char>, Option<AnsiColor>)>,
> {
    v.map_values(|e: Vec<(String, Option<AnsiColor>)>| segments_view(e@))
}

/// The text shown between two blocks in the panel.
pub fn separator_text(separator: &str) -> (r: String)
    ensures
        r@ == display_separator(separator@),
{
    let mut r = String::new();
    push_char(&mut r, ' ');
    r.append(trim(separator));
    push_char(&mut r, ' ');
    assert(r@ =~= display_separator(separator@));
    r
}

/// The shortest interval, in seconds, that the `−` button of the editor sets.
pub const MIN_INTERVAL: u64 = 1;

/// The interval that the `−` button sets for an interval of `v` seconds:
/// one second less, but never below one second.
pub open spec fn decreased_interval_value(v: u64) -> u64 {
    if v > MIN_INTERVAL {
        (v - 1) as u64
    } else {
        MIN_INTERVAL
    }
}

/// Where a row of the popup editor lets the user go: whether its block can
/// move up or down, and the interval texts that its `−` and `+` buttons set (the `−` button
/// never sets less than one second).
#[derive(Clone, Debug)]
pub struct EditorRow {
    pub move_up: bool,
    pub move_down: bool,
    pub decreased_interval: String,
    pub increased_interval: String,
}

impl ExecutorApplet {
    /// The elements of the panel's label, from the last output of each block.
    pub fn label(&self) -> (r: Vec<Vec<(String, Option<AnsiColor>)>>)
        ensures
            elements_view(r@) == label_elements(
                self@.outputs,
                self@.config.separator,
                self@.outputs.len() as int,
            ),
    {
        let ghost outputs = self@.outputs;
        let ghost separator = self@.config.separator;
        let sep = separator_text(self.config.separator.as_str());
        let mut children: Vec<Vec<(String, Option<AnsiColor>)>> = Vec::new();
        for i in 0..self.outputs.len()
            invariant
                outputs == self@.outputs,
                separator == self@.config.separator,
                sep@ == display_separator(separator),
                outputs.len() == self.outputs.len(),
                elements_view(children@) == label_elements(outputs, separator, i as int),
        {
            let ghost before = elements_view(children@);
            if i > 0 {
                let mut piece: Vec<(String, Option<AnsiColor>)> = Vec::new();
                piece.push((sep.clone(), None));
                assert(segments_view(piece@) =~= seq![(display_separator(separator), None::<AnsiColor>)]);
                children.push(piece);
            }
            let ghost middle = elements_view(children@);
            assert(middle =~= before + (if i > 0 {
                seq![seq![(display_separator(separator), None::<AnsiColor>)]]
            } else {
                Seq::empty()
            }));
            let pieces = parse_ansi(self.outputs[i].as_str());
            assert(outputs[i as int] == self.outputs@[i as int]@);
            children.push(pieces);
            assert(elements_view(children@) =~= middle + seq![ansi_segments(outputs[i as int], None)]);
        }
        children
    }

    /// The controls of row `i` of the popup editor.
    pub fn editor_row(&self, i: usize) -> (r: EditorRow)
        requires
            well_formed(self@),
            i < self@.edit_commands.len(),
            interval_of_text(self@.edit_intervals[i as int]) < u64::MAX,
        ensures
            r.move_up == (i > 0),
            r.move_down == (i + 1 < self@.edit_commands.len()),
            r.decreased_interval@ == decimal_chars(
                decreased_interval_value(interval_of_text(self@.edit_intervals[i as int])) as nat,
            ),
            r.increased_interval@ == decimal_chars(
                (interval_of_text(self@.edit_intervals[i as int]) + 1) as nat,
            ),
    {
        let value = interval_value(self.edit_intervals[i].as_str());
        assert(value == interval_of_text(self@.edit_intervals[i as int]));
        assert(self@.edit_commands.len() == self.edit_commands.len());
        EditorRow {
            move_up: i > 0,
            move_down: i + 1 < self.edit_commands.len(),
            decreased_interval: format_u64(if value > MIN_INTERVAL { value - 1 } else { MIN_INTERVAL }),
            increased_interval: format_u64(value + 1),
        }
    }
}

/// After a command's output arrives, the panel shows that output in the
/// place of its block.
pub proof fn lemma_output_shown(s: AppletView, i: usize, text: String)
    requires
        well_formed(s),
        i < s.outputs.len(),
    ensures
        step(s, Message::Output(i, text)).0.outputs[i as int] == text@,
        label_elements(
            step(s, Message::Output(i, text)).0.outputs,
            s.config.separator,
            (i + 1) as int,
        ).last() == ansi_segments(text@, None),
{
}

/// The panel shows the output of each block in order, with the separator,
/// trimmed and padded with one space on each side, between each two of them.
pub proof fn lemma_label_layout(outputs: Seq<Seq<char>>, separator: Seq<char>, k: int)
    requires
        0 < k <= outputs.len(),
    ensures
        label_elements(outputs, separator, k).len() == 2 * k - 1,
        forall|j: int|
            0 <= j < k ==> #[trigger] label_elements(outputs, separator, k)[2 * j] == ansi_segments(
                outputs[j],
                None,
            ),
        forall|j: int|
            0 <= j < k - 1 ==> #[trigger] label_elements(outputs, separator, k)[2 * j + 1] == seq![
                (display_separator(separator), None::<AnsiColor>),
            ],
    decreases k,
{
    if k > 1 {
        lemma_label_layout(outputs, separator, k - 1);
        let prev = label_elements(outputs, separator, k - 1);
        let all = label_elements(outputs, separator, k);
        assert(all == prev + seq![seq![(display_separator(separator), None::<AnsiColor>)]] + seq![
            ansi_segments(outputs[k - 1], None),
        ]);
        assert forall|j: int| 0 <= j < k implies #[trigger] all[2 * j] == ansi_segments(
            outputs[j],
            None,
        ) by {
            if j < k - 1 {
                assert(all[2 * j] == prev[2 * j]);
            }
        }
        assert forall|j: int| 0 <= j < k - 1 implies #[trigger] all[2 * j + 1] == seq![
            (display_separator(separator), None::<AnsiColor>),
        ] by {
            if j < k - 2 {
                assert(all[2 * j + 1] == prev[2 * j + 1]);
            }
        }
    } else {
        assert(label_elements(outputs, separator, 0) =~= Seq::empty());
    }
}

} // verus!
