//! rr-style checkpoints (`qRRCmd checkpoint` / `vRun;c<N>`).
//!
//! A trace needs no process snapshots: jumping to a recorded position is free,
//! so a checkpoint is a saved position plus the text that the client parses
//! back.

use std::collections::BTreeMap;

use vstd::prelude::*;
use vstd::std_specs::btree::increasing_seq;

use crate::order::lemma_increasing;
use crate::text::chars_of;
use crate::text::digits::{
    decimal, hex_upper, lemma_radix_text_digits, push_decimal, push_hex_upper,
};
use crate::text::split::{lemma_one_piece, lemma_pieces_joined, pieces};
use crate::ttd::types::TtdPosition;

verus! {

broadcast use {vstd::std_specs::btree::group_btree_axioms, vstd::laws_cmp::group_laws_cmp};

/// A trace position as rr's `when` string: `SEQ:STEPS` in uppercase hex.
pub open spec fn position_text(pos: TtdPosition) -> Seq<char> {
    hex_upper(pos.sequence as nat).push(':') + hex_upper(pos.steps as nat)
}

/// The characters that would break a tab-separated row.
pub open spec fn breaks_row(c: char) -> bool {
    c == '\t' || c == '\n' || c == '\r'
}

/// A location string made safe for a row: every breaking character becomes a
/// space.
pub open spec fn sanitized(s: Seq<char>) -> Seq<char> {
    s.map_values(
        |c: char|
            if breaks_row(c) {
                ' '
            } else {
                c
            },
    )
}

/// Whether a location holds no character that breaks a row.
pub open spec fn fits_row(s: Seq<char>) -> bool {
    forall|i: int| 0 <= i < s.len() ==> !breaks_row(#[trigger] s[i])
}

/// One saved checkpoint.
pub struct Saved {
    pub position: TtdPosition,
    pub place: Seq<char>,
}

/// The contents of a checkpoint table: what is saved under each id, and the id
/// that the next checkpoint gets.
pub struct Checkpoints {
    pub saved: Map<u64, Saved>,
    pub next_id: nat,
}

impl Checkpoints {
    /// Every id handed out lies between 1 and the next id, and no saved
    /// location breaks a row.
    pub open spec fn valid(self) -> bool {
        &&& 1 <= self.next_id <= u64::MAX
        &&& self.saved.dom().finite()
        &&& forall|id: u64| #[trigger]
            self.saved.contains_key(id) ==> {
                &&& 1 <= id < self.next_id
                &&& fits_row(self.saved[id].place)
            }
    }

    /// The contents after saving `pos` with a location.
    pub open spec fn inserted(self, pos: TtdPosition, place: Seq<char>) -> Checkpoints {
        Checkpoints {
            saved: self.saved.insert(
                self.next_id as u64,
                Saved { position: pos, place: sanitized(place) },
            ),
            next_id: self.next_id + 1,
        }
    }

    /// The contents after forgetting `id`.
    pub open spec fn removed(self, id: u64) -> Checkpoints {
        Checkpoints { saved: self.saved.remove(id), next_id: self.next_id }
    }

    /// The position saved under `id`.
    pub open spec fn position_of(self, id: u64) -> Option<TtdPosition> {
        if self.saved.contains_key(id) {
            Some(self.saved[id].position)
        } else {
            None
        }
    }
}

/// The acknowledgement of a new checkpoint.
pub open spec fn acknowledgement(id: nat, pos: TtdPosition, place: Seq<char>) -> Seq<char> {
    let plain = "Checkpoint "@ + decimal(id) + " at "@ + position_text(pos);
    if place.len() == 0 {
        plain
    } else {
        plain.push(' ') + place
    }
}

/// The row of one checkpoint in `info checkpoints`.
pub open spec fn row(id: nat, cp: Saved) -> Seq<char> {
    decimal(id).push('\t') + position_text(cp.position).push('\t') + (if cp.place.len() == 0 {
        seq!['-']
    } else {
        cp.place
    }).push('\n')
}

/// The rows of the checkpoints whose id is below `n`, by ascending id.
pub open spec fn rows_below(saved: Map<u64, Saved>, n: nat) -> Seq<char>
    decreases n,
{
    if n == 0 {
        Seq::empty()
    } else {
        let id = (n - 1) as u64;
        if n <= u64::MAX + 1 && saved.contains_key(id) {
            rows_below(saved, (n - 1) as nat) + row((n - 1) as nat, saved[id])
        } else {
            rows_below(saved, (n - 1) as nat)
        }
    }
}

/// The reply to `info checkpoints`.
pub open spec fn listing(t: Checkpoints) -> Seq<char> {
    "Num\tWhen\tWhere\n"@ + rows_below(t.saved, t.next_id)
}

/// Render a trace position as rr's `when` string.
pub fn format_position(pos: TtdPosition) -> (r: String)
    ensures
        r@ == position_text(pos),
{
    let mut out = String::new();
    push_hex_upper(&mut out, pos.sequence);
    out.push(':');
    push_hex_upper(&mut out, pos.steps);
    assert(out@ =~= position_text(pos));
    out
}

/// A saved trace position.
struct Checkpoint {
    position: TtdPosition,
    when: String,
    where_: String,
}

/// The checkpoint table behind `qRRCmd checkpoint`, `info checkpoints` and
/// `delete checkpoint`.
///
/// Ids start at 1: 0 means "no checkpoint" everywhere else.
pub struct CheckpointTable {
    by_id: BTreeMap<u64, Checkpoint>,
    next_id: u64,
}

impl View for CheckpointTable {
    type V = Checkpoints;

    closed spec fn view(&self) -> Checkpoints {
        Checkpoints {
            saved: self.by_id@.map_values(
                |c: Checkpoint| Saved { position: c.position, place: c.where_@ },
            ),
            next_id: self.next_id as nat,
        }
    }
}

impl Default for CheckpointTable {
    fn default() -> (r: CheckpointTable)
        ensures
            r.wf(),
            r@.saved == Map::<u64, Saved>::empty(),
            r@.next_id == 1,
    {
        CheckpointTable::new()
    }
}

impl CheckpointTable {
    /// Every id handed out lies between 1 and the next id, the stored `when`
    /// text is that of the position, and no stored location breaks a row.
    pub closed spec fn wf(&self) -> bool {
        &&& self.next_id >= 1
        &&& forall|id: u64| #[trigger]
            self.by_id@.contains_key(id) ==> {
                &&& 1 <= id < self.next_id
                &&& self.by_id@[id].when@ == position_text(self.by_id@[id].position)
                &&& fits_row(self.by_id@[id].where_@)
            }
    }

    /// The contents of a well-formed table are valid.
    pub proof fn lemma_contents_valid(&self)
        requires
            self.wf(),
        ensures
            self@.valid(),
    {
        assert(self@.saved.dom() =~= self.by_id@.dom());
        assert forall|id: u64| #[trigger] self@.saved.contains_key(id) implies ({
            &&& 1 <= id < self@.next_id
            &&& fits_row(self@.saved[id].place)
        }) by {
            assert(self.by_id@.contains_key(id));
        }
    }

    /// An empty table.
    pub fn new() -> (r: CheckpointTable)
        ensures
            r.wf(),
            r@.saved == Map::<u64, Saved>::empty(),
            r@.next_id == 1,
    {
        let t = CheckpointTable { by_id: BTreeMap::new(), next_id: 1 };
        assert(t@.saved =~= Map::<u64, Saved>::empty());
        t
    }

    /// Whether every id has been handed out.
    pub fn is_full(&self) -> (r: bool)
        ensures
            r == (self@.next_id == u64::MAX),
    {
        self.next_id == u64::MAX
    }

    /// Save `pos` under a fresh id, returning the id and the acknowledgement
    /// that the client parses.
    pub fn insert(&mut self, pos: TtdPosition, where_: &str) -> (r: (u64, String))
        requires
            old(self).wf(),
            old(self)@.next_id < u64::MAX,
        ensures
            final(self).wf(),
            r.0 == old(self)@.next_id,
            r.1@ == acknowledgement(old(self)@.next_id, pos, sanitized(where_@)),
            final(self)@ == old(self)@.inserted(pos, where_@),
    {
        let id = self.next_id;
        self.next_id = self.next_id + 1;
        let when = format_position(pos);
        let place = sanitize(where_);
        let mut ack = String::new();
        ack.append("Checkpoint ");
        push_decimal(&mut ack, id);
        ack.append(" at ");
        ack.append(when.as_str());
        assert(ack@ =~= "Checkpoint "@ + decimal(id as nat) + " at "@ + position_text(pos));
        if !place.as_str().is_empty() {
            ack.push(' ');
            ack.append(place.as_str());
        }
        self.by_id.insert(id, Checkpoint { position: pos, when, where_: place });
        assert(self@.saved =~= old(self)@.saved.insert(
            id,
            Saved { position: pos, place: sanitized(where_@) },
        ));
        (id, ack)
    }

    /// The position that a `vRun;c<id>` restart should jump to.
    pub fn position(&self, id: u64) -> (r: Option<TtdPosition>)
        ensures
            r == self@.position_of(id),
    {
        match self.by_id.get(&id) {
            Some(c) => Some(c.position),
            None => None,
        }
    }

    /// Forget checkpoint `id`. Returns whether it existed.
    pub fn remove(&mut self, id: u64) -> (r: bool)
        requires
            old(self).wf(),
        ensures
            final(self).wf(),
            r == old(self)@.saved.contains_key(id),
            final(self)@ == old(self)@.removed(id),
    {
        let removed = self.by_id.remove(&id);
        assert(self@.saved =~= old(self)@.saved.remove(id));
        removed.is_some()
    }

    /// `info checkpoints`: a header line plus one tab-separated row per
    /// checkpoint, by ascending id.
    pub fn render(&self) -> (r: String)
        requires
            self.wf(),
        ensures
            r@ == listing(self@),
    {
        let mut out = String::new();
        out.append("Num\tWhen\tWhere\n");
        let ghost header = "Num\tWhen\tWhere\n"@;
        let ghost saved = self@.saved;
        let ghost mut done: nat = 0;
        assert(out@ =~= header + rows_below(saved, 0));
        for kv in it: self.by_id.iter()
            invariant
                self.wf(),
                saved == self@.saved,
                out@ == header + rows_below(saved, done),
                done <= self.next_id,
                it.index() == 0 ==> done == 0,
                it.index() > 0 ==> done == *it.seq()[it.index() - 1].0 + 1,
                increasing_seq(it.seq().map_values(|kv: (&u64, &Checkpoint)| *kv.0)),
                forall|k: u64| #[trigger]
                    self.by_id@.contains_key(k) ==> k < done || exists|i: int|
                        it.index() <= i < it.seq().len() && *(#[trigger] it.seq()[i]).0 == k,
        {
            let id = *kv.0;
            let cp = kv.1;
            let ghost before = out@;
            proof {
                let n = it.index();
                let keys = it.seq().map_values(|kv: (&u64, &Checkpoint)| *kv.0);
                assert(self.by_id@.contains_key(id));
                assert forall|k: u64| done <= k < id implies !saved.contains_key(k) by {
                    if self.by_id@.contains_key(k) {
                        let i = choose|i: int|
                            n <= i < it.seq().len() && *(#[trigger] it.seq()[i]).0 == k;
                        lemma_increasing(keys);
                        assert(keys[i] == k);
                        assert(keys[n] == id);
                        if n > 0 {
                            assert(keys[n - 1] + 1 == done);
                        }
                    }
                }
                if n > 0 {
                    lemma_increasing(keys);
                    assert(keys[n - 1] + 1 == done && keys[n] == id);
                }
                lemma_gap(saved, done, id as nat);
            }
            push_decimal(&mut out, id);
            out.push('\t');
            out.append(cp.when.as_str());
            out.push('\t');
            if cp.where_.as_str().is_empty() {
                out.push('-');
            } else {
                out.append(cp.where_.as_str());
            }
            out.push('\n');
            proof {
                done = id as nat + 1;
                assert(saved[id] == (Saved { position: cp.position, place: cp.where_@ }));
                assert(out@ =~= before + row(id as nat, saved[id]));
                assert(out@ =~= header + rows_below(saved, done));
            }
        }
        proof {
            assert forall|k: u64| done <= k < self.next_id implies !saved.contains_key(k) by {
                assert(!self.by_id@.contains_key(k));
            }
            lemma_gap(saved, done, self.next_id as nat);
        }
        out
    }
}

/// Ids under which nothing is saved add no row.
proof fn lemma_gap(saved: Map<u64, Saved>, low: nat, high: nat)
    requires
        low <= high <= u64::MAX + 1,
        forall|k: u64| low <= k < high ==> !saved.contains_key(k),
    ensures
        rows_below(saved, high) == rows_below(saved, low),
    decreases high,
{
    if low < high {
        assert(!saved.contains_key((high - 1) as u64));
        lemma_gap(saved, low, (high - 1) as nat);
    }
}

/// Replace the characters that would break a row.
fn sanitize(s: &str) -> (r: String)
    ensures
        r@ == sanitized(s@),
        fits_row(r@),
{
    let chars = chars_of(s);
    let mut out = String::new();
    for i in 0..chars.len()
        invariant
            chars@ == s@,
            out@ == sanitized(s@).take(i as int),
    {
        let c = chars[i];
        if c == '\t' || c == '\n' || c == '\r' {
            out.push(' ');
        } else {
            out.push(c);
        }
        assert(out@ =~= sanitized(s@).take(i as int + 1));
    }
    assert(sanitized(s@).take(chars@.len() as int) =~= sanitized(s@));
    out
}

/// A new id is one that was never handed out before, and the next one is
/// larger: ids start at 1, grow, and are not reused when a checkpoint goes.
pub proof fn law_ids_are_fresh_and_grow(t: Checkpoints, pos: TtdPosition, place: Seq<char>, gone: u64)
    requires
        t.valid(),
        t.next_id < u64::MAX,
    ensures
        !t.saved.contains_key(t.next_id as u64),
        t.inserted(pos, place).valid(),
        t.inserted(pos, place).next_id > t.next_id,
        t.removed(gone).valid(),
        t.removed(gone).next_id == t.next_id,
{
    assert(t.inserted(pos, place).saved.dom() =~= t.saved.dom().insert(t.next_id as u64));
    assert(t.removed(gone).saved.dom() =~= t.saved.dom().remove(gone));
}

/// A saved position is found under its id, and no other checkpoint changes.
pub proof fn law_insert_saves_one(t: Checkpoints, pos: TtdPosition, place: Seq<char>, other: u64)
    requires
        t.valid(),
        other != t.next_id,
    ensures
        t.inserted(pos, place).position_of(t.next_id as u64) == Some(pos),
        t.inserted(pos, place).position_of(other) == t.position_of(other),
{
}

/// A forgotten checkpoint is gone for good, and no other checkpoint changes.
pub proof fn law_remove_forgets_one(t: Checkpoints, id: u64, other: u64)
    requires
        other != id,
    ensures
        t.removed(id).position_of(id) is None,
        t.removed(id).position_of(other) == t.position_of(other),
        t.removed(id).removed(id) == t.removed(id),
{
    assert(t.removed(id).removed(id).saved =~= t.removed(id).saved);
}

/// The cells of a checkpoint's row.
pub open spec fn cells(id: nat, cp: Saved) -> Seq<Seq<char>> {
    seq![
        decimal(id),
        position_text(cp.position),
        if cp.place.len() == 0 {
            seq!['-']
        } else {
            cp.place
        },
    ]
}

/// Numbers contain no character that breaks a row.
proof fn lemma_number_fits_row(n: nat, base: nat, upper: bool)
    requires
        2 <= base <= 16,
    ensures
        fits_row(crate::text::digits::radix_text(n, base, upper)),
{
    lemma_radix_text_digits(n, base, upper);
}

/// No location can forge a column: a row is its three cells, separated by tabs
/// and ended by the only newline.
pub proof fn law_row_has_three_cells(id: nat, cp: Saved)
    requires
        fits_row(cp.place),
    ensures
        row(id, cp).len() > 0,
        row(id, cp).last() == '\n',
        !row(id, cp).drop_last().contains('\n'),
        pieces(row(id, cp).drop_last(), '\t') == cells(id, cp),
{
    let c = cells(id, cp);
    lemma_number_fits_row(id, 10, false);
    lemma_number_fits_row(cp.position.sequence as nat, 16, true);
    lemma_number_fits_row(cp.position.steps as nat, 16, true);
    assert(fits_row(c[0]));
    assert(fits_row(c[1])) by {
        assert forall|i: int| 0 <= i < c[1].len() implies !breaks_row(#[trigger] c[1][i]) by {
            let a = hex_upper(cp.position.sequence as nat);
            let b = hex_upper(cp.position.steps as nat);
            if i < a.len() {
                assert(c[1][i] == a[i]);
            } else if i > a.len() {
                assert(c[1][i] == b[i - a.len() - 1]);
            }
        }
    }
    assert(fits_row(c[2]));
    let line = row(id, cp).drop_last();
    assert(line =~= c[0].push('\t') + (c[1].push('\t') + c[2]));
    assert(!line.contains('\n')) by {
        if line.contains('\n') {
            let i = choose|i: int| 0 <= i < line.len() && line[i] == '\n';
            let j = i - c[0].len() - 1;
            let k = j - c[1].len() - 1;
            assert(i < c[0].len() ==> line[i] == c[0][i] && !breaks_row(c[0][i]));
            assert(0 <= j < c[1].len() ==> line[i] == c[1][j] && !breaks_row(c[1][j]));
            assert(0 <= k < c[2].len() ==> line[i] == c[2][k] && !breaks_row(c[2][k]));
        }
    }
    assert forall|n: int| 0 <= n < 3 implies !(#[trigger] c[n]).contains('\t') by {
        assert(fits_row(c[n]));
    }
    lemma_pieces_joined(c[0], '\t', c[1].push('\t') + c[2]);
    lemma_pieces_joined(c[1], '\t', c[2]);
    lemma_one_piece(c[0], '\t');
    lemma_one_piece(c[1], '\t');
    lemma_one_piece(c[2], '\t');
    assert(pieces(line, '\t') =~= c);
}

/// The lines of the checkpoints whose id is below `n`.
pub open spec fn lines_below(saved: Map<u64, Saved>, n: nat) -> Seq<Seq<char>>
    decreases n,
{
    if n == 0 {
        Seq::empty()
    } else {
        let id = (n - 1) as u64;
        if n <= u64::MAX + 1 && saved.contains_key(id) {
            lines_below(saved, (n - 1) as nat).push(row((n - 1) as nat, saved[id]).drop_last())
        } else {
            lines_below(saved, (n - 1) as nat)
        }
    }
}

proof fn lemma_lines(start: Seq<char>, saved: Map<u64, Saved>, n: nat)
    requires
        !start.contains('\n'),
        n <= u64::MAX + 1,
        forall|id: u64| #[trigger] saved.contains_key(id) ==> fits_row(saved[id].place),
    ensures
        pieces(start.push('\n') + rows_below(saved, n), '\n') == seq![start] + lines_below(saved, n)
            + seq![Seq::<char>::empty()],
        (start.push('\n') + rows_below(saved, n)).last() == '\n',
    decreases n,
{
    let nl = '\n';
    let text = start.push(nl) + rows_below(saved, n);
    if n == 0 {
        assert(text =~= start.push(nl) + Seq::<char>::empty());
        lemma_pieces_joined(start, nl, Seq::<char>::empty());
        lemma_one_piece(start, nl);
        lemma_one_piece(Seq::<char>::empty(), nl);
    } else {
        let id = (n - 1) as u64;
        lemma_lines(start, saved, (n - 1) as nat);
        if saved.contains_key(id) {
            let before = start.push(nl) + rows_below(saved, (n - 1) as nat);
            let line = row((n - 1) as nat, saved[id]).drop_last();
            law_row_has_three_cells((n - 1) as nat, saved[id]);
            assert(text =~= (before + line).push(nl) + Seq::<char>::empty());
            assert(before =~= before.drop_last().push(nl));
            lemma_pieces_joined(before.drop_last(), nl, Seq::<char>::empty());
            assert(before.drop_last().push(nl) + Seq::<char>::empty() =~= before);
            lemma_pieces_joined(before.drop_last(), nl, line);
            assert(before.drop_last().push(nl) + line =~= before + line);
            lemma_pieces_joined(before + line, nl, Seq::<char>::empty());
            lemma_one_piece(line, nl);
            lemma_one_piece(Seq::<char>::empty(), nl);
            let so_far = seq![start] + lines_below(saved, (n - 1) as nat);
            let earlier = pieces(before.drop_last(), nl);
            assert(earlier + seq![Seq::<char>::empty()] == so_far + seq![Seq::<char>::empty()]);
            assert(earlier =~= (earlier + seq![Seq::<char>::empty()]).drop_last());
            assert(so_far =~= (so_far + seq![Seq::<char>::empty()]).drop_last());
            assert(so_far.push(line) =~= seq![start] + lines_below(saved, n));
        }
    }
}

/// No location can forge a row: the listing is the header line and one line per
/// checkpoint, by ascending id.
pub proof fn law_listing_has_one_line_per_checkpoint(t: Checkpoints)
    requires
        t.valid(),
    ensures
        pieces(listing(t), '\n') == seq!["Num\tWhen\tWhere"@] + lines_below(t.saved, t.next_id)
            + seq![Seq::<char>::empty()],
        lines_below(t.saved, t.next_id).len() == t.saved.len(),
{
    reveal_strlit("Num\tWhen\tWhere");
    reveal_strlit("Num\tWhen\tWhere\n");
    assert("Num\tWhen\tWhere\n"@ =~= "Num\tWhen\tWhere"@.push('\n'));
    lemma_lines("Num\tWhen\tWhere"@, t.saved, t.next_id);
    lemma_line_count(t.saved, t.next_id);
}

proof fn lemma_line_count(saved: Map<u64, Saved>, n: nat)
    requires
        n <= u64::MAX + 1,
        saved.dom().finite(),
        forall|id: u64| #[trigger] saved.contains_key(id) ==> id < n,
    ensures
        lines_below(saved, n).len() == saved.len(),
    decreases n,
{
    if n == 0 {
        assert(saved.dom() =~= Set::<u64>::empty());
    } else {
        let id = (n - 1) as u64;
        let rest = saved.remove(id);
        lemma_line_count(rest, (n - 1) as nat);
        lemma_lines_agree(saved, rest, (n - 1) as nat);
        if !saved.contains_key(id) {
            assert(rest.dom() =~= saved.dom());
        }
    }
}

proof fn lemma_lines_agree(a: Map<u64, Saved>, b: Map<u64, Saved>, n: nat)
    requires
        n <= u64::MAX + 1,
        forall|id: u64| id < n ==> a.contains_key(id) == b.contains_key(id),
        forall|id: u64| id < n && a.contains_key(id) ==> a[id] == b[id],
    ensures
        lines_below(a, n) == lines_below(b, n),
    decreases n,
{
    if n > 0 {
        lemma_lines_agree(a, b, (n - 1) as nat);
    }
}

} // verus!
