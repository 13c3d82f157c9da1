use vstd::prelude::*;
use crate::color::{append_digit, dec_digit};
use crate::messages::{ClientMessage, ClientMessageView, ServerMessage, ServerMessageView};
use crate::piece::PieceId;

verus! {

/// The decimal rendering of a number, most significant digit first, without
/// leading zeros.
pub open spec fn dec_rep(n: nat) -> Seq<char>
    decreases n,
{
    if n < 10 {
        seq![dec_digit(n as int)]
    } else {
        dec_rep(n / 10) + seq![dec_digit((n % 10) as int)]
    }
}

/// A list of already-rendered parts, joined with commas.
pub open spec fn joined(parts: Seq<Seq<char>>) -> Seq<char>
    decreases parts.len(),
{
    if parts.len() == 0 {
        Seq::empty()
    } else if parts.len() == 1 {
        parts[0]
    } else {
        parts[0] + seq![','] + joined(parts.drop_first())
    }
}

/// Joining one more part appends it after a comma, unless it is the first.
pub proof fn lemma_joined_push(parts: Seq<Seq<char>>, p: Seq<char>)
    ensures
        joined(parts.push(p)) == (if parts.len() == 0 {
            p
        } else {
            joined(parts) + seq![','] + p
        }),
    decreases parts.len(),
{
    if parts.len() == 0 {
        assert(parts.push(p).len() == 1);
        assert(parts.push(p)[0] == p);
    } else if parts.len() == 1 {
        assert(parts.push(p)[0] == parts[0]);
        assert(parts.push(p).drop_first() =~= seq![p]);
        assert(joined(seq![p]) == p);
    } else {
        assert(parts.push(p).drop_first() =~= parts.drop_first().push(p));
        lemma_joined_push(parts.drop_first(), p);
        assert(parts.push(p)[0] == parts[0]);
    }
}

/// The rendered row bitmasks of a lines-destroyed message.
pub open spec fn lines_parts(rows: Seq<u16>) -> Seq<Seq<char>> {
    Seq::new(rows.len(), |i: int| dec_rep(rows[i] as nat))
}

/// One board cell on the wire: `null` when empty, else the piece kind as a
/// quoted letter.
pub open spec fn cell_json(c: Option<PieceId>) -> Seq<char> {
    match c {
        Option::None => "null"@,
        Option::Some(PieceId::I) => "\"I\""@,
        Option::Some(PieceId::O) => "\"O\""@,
        Option::Some(PieceId::T) => "\"T\""@,
        Option::Some(PieceId::S) => "\"S\""@,
        Option::Some(PieceId::Z) => "\"Z\""@,
        Option::Some(PieceId::L) => "\"L\""@,
        Option::Some(PieceId::J) => "\"J\""@,
    }
}

/// The ten rendered cells of board row `r`.
pub open spec fn row_parts(cells: Seq<Option<PieceId>>, r: int) -> Seq<Seq<char>> {
    Seq::new(10, |i: int| cell_json(cells[r * 10 + i]))
}

/// One board row on the wire.
pub open spec fn row_json(cells: Seq<Option<PieceId>>, r: int) -> Seq<char> {
    "["@ + joined(row_parts(cells, r)) + "]"@
}

/// The twenty rendered rows of a board.
pub open spec fn board_parts(cells: Seq<Option<PieceId>>) -> Seq<Seq<char>> {
    Seq::new(20, |r: int| row_json(cells, r))
}

/// A whole board on the wire: twenty rows of ten cells.
pub open spec fn board_json(cells: Seq<Option<PieceId>>) -> Seq<char> {
    "["@ + joined(board_parts(cells)) + "]"@
}

/// A client message on the wire: the tagged-union convention both ends
/// share.
pub open spec fn client_json(m: ClientMessageView) -> Seq<char> {
    match m {
        ClientMessageView::LinesDestroyed(rows) => {
            "{\"LinesDestroyed\":["@ + joined(lines_parts(rows)) + "]}"@
        },
        ClientMessageView::BoardUpdate(cells) => {
            "{\"BoardUpdate\":"@ + board_json(cells) + "}"@
        },
        ClientMessageView::GameOver => "\"GameOver\""@,
    }
}

/// A server message on the wire.
pub open spec fn server_json(m: ServerMessageView) -> Seq<char> {
    match m {
        ServerMessageView::Broadcast { user_id, msg } => {
            "{\"Broadcast\":{\"user_id\":"@ + dec_rep(user_id as nat) + ",\"msg\":"@ + client_json(
                msg,
            ) + "}}"@
        },
        ServerMessageView::LeaderBoardUpdate => "{\"LeaderBoardUpdate\":[]}"@,
    }
}

/// Append the decimal rendering of `n`.
fn append_number(s: &mut String, n: u128)
    ensures
        final(s)@ == old(s)@ + dec_rep(n as nat),
    decreases n,
{
    if n < 10 {
        append_digit(s, n as u8);
    } else {
        append_number(s, n / 10);
        append_digit(s, (n % 10) as u8);
        proof {
            assert(s@ =~= old(s)@ + dec_rep(n as nat));
        }
    }
}

/// Append one board cell.
fn append_cell(s: &mut String, c: &Option<PieceId>)
    ensures
        final(s)@ == old(s)@ + cell_json(*c),
{
    match c {
        Option::None => s.append("null"),
        Option::Some(PieceId::I) => s.append("\"I\""),
        Option::Some(PieceId::O) => s.append("\"O\""),
        Option::Some(PieceId::T) => s.append("\"T\""),
        Option::Some(PieceId::S) => s.append("\"S\""),
        Option::Some(PieceId::Z) => s.append("\"Z\""),
        Option::Some(PieceId::L) => s.append("\"L\""),
        Option::Some(PieceId::J) => s.append("\"J\""),
    }
}

/// Append the joined row bitmasks.
fn append_lines(s: &mut String, rows: &Vec<u16>)
    ensures
        final(s)@ == old(s)@ + joined(lines_parts(rows@)),
{
    let n = rows.len();
    let mut i: usize = 0;
    while i < n
        invariant
            n == rows@.len(),
            i <= n,
            s@ == old(s)@ + joined(lines_parts(rows@).take(i as int)),
        decreases n - i,
    {
        if i > 0 {
            s.append(",");
        }
        append_number(s, rows[i] as u128);
        proof {
            let parts = lines_parts(rows@);
            assert(parts.take(i + 1) =~= parts.take(i as int).push(parts[i as int]));
            lemma_joined_push(parts.take(i as int), parts[i as int]);
            assert(parts[i as int] == dec_rep(rows@[i as int] as nat));
            if i == 0 {
                assert(parts.take(0) =~= Seq::<Seq<char>>::empty());
                assert(s@ =~= old(s)@ + joined(parts.take(1)));
            } else {
                reveal_strlit(",");
                assert(","@ =~= seq![',']);
                assert(s@ =~= old(s)@ + joined(parts.take(i + 1)));
            }
        }
        i += 1;
    }
    proof {
        assert(lines_parts(rows@).take(n as int) =~= lines_parts(rows@));
    }
}

/// Append one board row.
fn append_row(s: &mut String, cells: &Vec<Option<PieceId>>, r: usize)
    requires
        cells@.len() == 200,
        r < 20,
    ensures
        final(s)@ == old(s)@ + row_json(cells@, r as int),
{
    s.append("[");
    let mut i: usize = 0;
    while i < 10
        invariant
            cells@.len() == 200,
            r < 20,
            i <= 10,
            s@ == old(s)@ + "["@ + joined(row_parts(cells@, r as int).take(i as int)),
        decreases 10 - i,
    {
        if i > 0 {
            s.append(",");
        }
        append_cell(s, &cells[r * 10 + i]);
        proof {
            let parts = row_parts(cells@, r as int);
            assert(parts.take(i + 1) =~= parts.take(i as int).push(parts[i as int]));
            lemma_joined_push(parts.take(i as int), parts[i as int]);
            assert(parts[i as int] == cell_json(cells@[r as int * 10 + i as int]));
            if i == 0 {
                assert(parts.take(0) =~= Seq::<Seq<char>>::empty());
                assert(s@ =~= old(s)@ + "["@ + joined(parts.take(1)));
            } else {
                reveal_strlit(",");
                assert(","@ =~= seq![',']);
                assert(s@ =~= old(s)@ + "["@ + joined(parts.take(i + 1)));
            }
        }
        i += 1;
    }
    s.append("]");
    proof {
        assert(row_parts(cells@, r as int).take(10) =~= row_parts(cells@, r as int));
        assert(s@ =~= old(s)@ + row_json(cells@, r as int));
    }
}

/// Append a whole board.
fn append_board(s: &mut String, cells: &Vec<Option<PieceId>>)
    requires
        cells@.len() == 200,
    ensures
        final(s)@ == old(s)@ + board_json(cells@),
{
    s.append("[");
    let mut r: usize = 0;
    while r < 20
        invariant
            cells@.len() == 200,
            r <= 20,
            s@ == old(s)@ + "["@ + joined(board_parts(cells@).take(r as int)),
        decreases 20 - r,
    {
        if r > 0 {
            s.append(",");
        }
        append_row(s, cells, r);
        proof {
            let parts = board_parts(cells@);
            assert(parts.take(r + 1) =~= parts.take(r as int).push(parts[r as int]));
            lemma_joined_push(parts.take(r as int), parts[r as int]);
            assert(parts[r as int] == row_json(cells@, r as int));
            if r == 0 {
                assert(parts.take(0) =~= Seq::<Seq<char>>::empty());
                assert(s@ =~= old(s)@ + "["@ + joined(parts.take(1)));
            } else {
                reveal_strlit(",");
                assert(","@ =~= seq![',']);
                assert(s@ =~= old(s)@ + "["@ + joined(parts.take(r + 1)));
            }
        }
        r += 1;
    }
    s.append("]");
    proof {
        assert(board_parts(cells@).take(20) =~= board_parts(cells@));
        assert(s@ =~= old(s)@ + board_json(cells@));
    }
}

/// A message whose carried board, if any, has the right cell count.
pub open spec fn client_wf(m: ClientMessage) -> bool {
    match m {
        ClientMessage::BoardUpdate(b) => b.wf(),
        _ => true,
    }
}

/// See [`client_wf`].
pub open spec fn server_wf(m: ServerMessage) -> bool {
    match m {
        ServerMessage::Broadcast { user_id: _, msg } => client_wf(msg),
        ServerMessage::LeaderBoardUpdate() => true,
    }
}

/// The exec twin of [`client_wf`], for callers outside the proof world.
pub fn client_wf_check(m: &ClientMessage) -> (r: bool)
    ensures
        r == client_wf(*m),
{
    match m {
        ClientMessage::BoardUpdate(b) => b.0.len() == 200,
        _ => true,
    }
}

/// The exec twin of [`server_wf`].
pub fn server_wf_check(m: &ServerMessage) -> (r: bool)
    ensures
        r == server_wf(*m),
{
    match m {
        ServerMessage::Broadcast { user_id: _, msg } => client_wf_check(msg),
        ServerMessage::LeaderBoardUpdate() => true,
    }
}

/// Encode a client message for the wire.
pub fn encode_client(m: &ClientMessage) -> (r: String)
    requires
        client_wf(*m),
    ensures
        r@ == client_json(m@),
{
    let mut s = String::new();
    match m {
        ClientMessage::LinesDestroyed(rows) => {
            s.append("{\"LinesDestroyed\":[");
            append_lines(&mut s, rows);
            s.append("]}");
            proof {
                assert(s@ =~= client_json(m@));
            }
        },
        ClientMessage::BoardUpdate(board) => {
            s.append("{\"BoardUpdate\":");
            append_board(&mut s, &board.0);
            s.append("}");
            proof {
                assert(s@ =~= client_json(m@));
            }
        },
        ClientMessage::GameOver => {
            s.append("\"GameOver\"");
            proof {
                assert(s@ =~= client_json(m@));
            }
        },
    }
    s
}

/// Encode a server message for the wire.
pub fn encode_server(m: &ServerMessage) -> (r: String)
    requires
        server_wf(*m),
    ensures
        r@ == server_json(m@),
{
    let mut s = String::new();
    match m {
        ServerMessage::Broadcast { user_id, msg } => {
            s.append("{\"Broadcast\":{\"user_id\":");
            append_number(&mut s, *user_id);
            s.append(",\"msg\":");
            let inner = encode_client(msg);
            s.append(inner.as_str());
            s.append("}}");
            proof {
                assert(s@ =~= server_json(m@));
            }
        },
        ServerMessage::LeaderBoardUpdate() => {
            s.append("{\"LeaderBoardUpdate\":[]}");
            proof {
                assert(s@ =~= server_json(m@));
            }
        },
    }
    s
}

/// The numeric value of a decimal digit character, if it is one.
pub open spec fn spec_digit_val(c: char) -> Option<u32> {
    if c == '0' {
        Some(0)
    } else if c == '1' {
        Some(1)
    } else if c == '2' {
        Some(2)
    } else if c == '3' {
        Some(3)
    } else if c == '4' {
        Some(4)
    } else if c == '5' {
        Some(5)
    } else if c == '6' {
        Some(6)
    } else if c == '7' {
        Some(7)
    } else if c == '8' {
        Some(8)
    } else if c == '9' {
        Some(9)
    } else {
        None
    }
}

fn digit_val(c: char) -> (r: Option<u32>)
    ensures
        r == spec_digit_val(c),
        r matches Some(v) ==> v < 10,
{
    match c {
        '0' => Some(0),
        '1' => Some(1),
        '2' => Some(2),
        '3' => Some(3),
        '4' => Some(4),
        '5' => Some(5),
        '6' => Some(6),
        '7' => Some(7),
        '8' => Some(8),
        '9' => Some(9),
        _ => None,
    }
}

/// The value a digit's character stands for; zero on anything else.
pub open spec fn digit_int(c: char) -> int {
    match spec_digit_val(c) {
        Some(d) => d as int,
        None => 0,
    }
}

/// The value a string of digits denotes.
pub open spec fn num_of(s: Seq<char>) -> int
    decreases s.len(),
{
    if s.len() == 0 {
        0
    } else {
        num_of(s.drop_last()) * 10 + digit_int(s.last())
    }
}

/// The decimal rendering of a value consists of digits and denotes the value.
proof fn lemma_dec_rep_num(x: nat)
    ensures
        dec_rep(x).len() >= 1,
        forall|j: int|
            0 <= j < dec_rep(x).len() ==> spec_digit_val(#[trigger] dec_rep(x)[j]) is Some,
        num_of(dec_rep(x)) == x,
    decreases x,
{
    reveal_with_fuel(num_of, 3);
    if x < 10 {
        assert(dec_rep(x) =~= seq![dec_digit(x as int)]);
        assert(spec_digit_val(dec_digit(x as int)) == Some(x as u32));
        assert(dec_rep(x).drop_last() =~= Seq::<char>::empty());
    } else {
        lemma_dec_rep_num(x / 10);
        let d = dec_digit((x % 10) as int);
        assert(dec_rep(x) == dec_rep(x / 10) + seq![d]);
        assert(dec_rep(x).drop_last() =~= dec_rep(x / 10));
        assert(dec_rep(x).last() == d);
        assert(spec_digit_val(d) == Some((x % 10) as u32));
        assert forall|j: int|
            0 <= j < dec_rep(x).len() implies spec_digit_val(#[trigger] dec_rep(x)[j]) is Some by {
            if j < dec_rep(x).len() - 1 {
                assert(dec_rep(x)[j] == dec_rep(x / 10)[j]);
            } else {
                assert(dec_rep(x)[j] == d);
            }
        }
        assert(num_of(dec_rep(x)) == (x / 10) * 10 + (x % 10));
        assert((x / 10) * 10 + (x % 10) == x) by {
            vstd::arithmetic::div_mod::lemma_fundamental_div_mod(x as int, 10);
        }
    }
}

/// A digit string denotes nothing negative.
proof fn lemma_num_of_nonneg(s: Seq<char>)
    ensures
        num_of(s) >= 0,
    decreases s.len(),
{
    if s.len() > 0 {
        lemma_num_of_nonneg(s.drop_last());
        assert(digit_int(s.last()) >= 0);
    }
}

/// Reading further digits can only grow the value.
proof fn lemma_num_of_take_le(s: Seq<char>, k: int)
    requires
        0 <= k <= s.len(),
    ensures
        num_of(s.take(k)) <= num_of(s),
    decreases s.len() - k,
{
    if k < s.len() {
        lemma_num_of_take_le(s, k + 1);
        assert(s.take(k + 1).drop_last() =~= s.take(k));
        assert(s.take(k + 1).last() == s[k]);
        lemma_num_of_nonneg(s.take(k));
        assert(num_of(s.take(k + 1)) == num_of(s.take(k)) * 10 + digit_int(s[k]));
    } else {
        assert(s.take(k) =~= s);
    }
}

/// Whether `pat` occurs in `s` at position `i`, exactly.
fn starts_at(s: &str, n: usize, i: usize, pat: &str) -> (r: bool)
    requires
        n == s@.len(),
        i <= n,
    ensures
        r <==> (i + pat@.len() <= n && s@.subrange(i as int, i + pat@.len()) == pat@),
{
    let m = pat.unicode_len();
    if m > n - i {
        return false;
    }
    let mut k: usize = 0;
    while k < m
        invariant
            n == s@.len(),
            m == pat@.len(),
            i + m <= n,
            k <= m,
            forall|t: int| 0 <= t < k ==> s@[i + t] == pat@[t],
        decreases m - k,
    {
        if s.get_char(i + k) != pat.get_char(k) {
            proof {
                assert(s@.subrange(i as int, i + pat@.len())[k as int] != pat@[k as int]);
            }
            return false;
        }
        k += 1;
    }
    proof {
        assert(s@.subrange(i as int, i + pat@.len()) =~= pat@);
    }
    true
}

/// Read a row bitmask: one or more digits whose value fits the row width.
/// Where the text at `start` is exactly the decimal rendering of a value,
/// followed by a non-digit or the end, that value comes back.
fn parse_u16_at(s: &str, n: usize, start: usize) -> (r: Option<(u16, usize)>)
    requires
        n == s@.len(),
        start <= n,
    ensures
        r matches Some(p) ==> start < p.1 <= n,
        forall|x: u16|
            {
                &&& start + dec_rep(x as nat).len() <= n
                &&& s@.subrange(start as int, start + dec_rep(x as nat).len()) == dec_rep(x as nat)
                &&& (start + dec_rep(x as nat).len() < n ==> spec_digit_val(
                    s@[start + dec_rep(x as nat).len()],
                ) is None)
            } ==> r == Some((x, (start + dec_rep(x as nat).len()) as usize)),
{
    let mut i = start;
    let mut val: u32 = 0;
    while i < n
        invariant
            n == s@.len(),
            start <= i <= n,
            val <= 0xFFFF,
            val == num_of(s@.subrange(start as int, i as int)),
            forall|j: int| start <= j < i ==> spec_digit_val(#[trigger] s@[j]) is Some,
        ensures
            n == s@.len(),
            start <= i <= n,
            val <= 0xFFFF,
            val == num_of(s@.subrange(start as int, i as int)),
            forall|j: int| start <= j < i ==> spec_digit_val(#[trigger] s@[j]) is Some,
            i == n || spec_digit_val(s@[i as int]) is None,
        decreases n - i,
    {
        let c = s.get_char(i);
        let d = match digit_val(c) {
            Some(d) => d,
            None => { break },
        };
        let nv = val * 10 + d;
        if nv > 0xFFFF {
            proof {
                assert forall|x: u16|
                    {
                        &&& start + dec_rep(x as nat).len() <= n
                        &&& s@.subrange(start as int, start + dec_rep(x as nat).len()) == dec_rep(
                            x as nat,
                        )
                        &&& (start + dec_rep(x as nat).len() < n ==> spec_digit_val(
                            s@[start + dec_rep(x as nat).len()],
                        ) is None)
                    } implies false by {
                    let rep = dec_rep(x as nat);
                    lemma_dec_rep_num(x as nat);
                    if i - start >= rep.len() {
                        // The character right after the rendering would have to
                        // be a digit, which the hypothesis forbids.
                        assert(start + rep.len() <= i);
                        if start + rep.len() < i {
                            assert(spec_digit_val(s@[start + rep.len()]) is Some);
                        } else {
                            assert(spec_digit_val(s@[i as int]) == spec_digit_val(c));
                        }
                    } else {
                        // The digits consumed so far are a prefix of the
                        // rendering, whose value never exceeds the value itself.
                        let k = i - start + 1;
                        assert(s@.subrange(start as int, i + 1) =~= rep.take(k));
                        assert(s@.subrange(start as int, i + 1).drop_last() =~= s@.subrange(
                            start as int,
                            i as int,
                        ));
                        assert(s@.subrange(start as int, i + 1).last() == s@[i as int]);
                        assert(num_of(rep.take(k)) == val * 10 + digit_int(c));
                        lemma_num_of_take_le(rep, k);
                        assert(nv <= x);
                    }
                }
            }
            return None;
        }
        val = nv;
        proof {
            assert(s@.subrange(start as int, i + 1).drop_last() =~= s@.subrange(
                start as int,
                i as int,
            ));
            assert(s@.subrange(start as int, i + 1).last() == s@[i as int]);
        }
        i += 1;
    }
    if i == start {
        proof {
            assert forall|x: u16|
                {
                    &&& start + dec_rep(x as nat).len() <= n
                    &&& s@.subrange(start as int, start + dec_rep(x as nat).len()) == dec_rep(
                        x as nat,
                    )
                    &&& (start + dec_rep(x as nat).len() < n ==> spec_digit_val(
                        s@[start + dec_rep(x as nat).len()],
                    ) is None)
                } implies false by {
                let rep = dec_rep(x as nat);
                lemma_dec_rep_num(x as nat);
                assert(s@[start as int] == rep[0]);
                assert(spec_digit_val(s@[start as int]) is Some);
            }
        }
        return None;
    }
    proof {
        assert forall|x: u16|
            {
                &&& start + dec_rep(x as nat).len() <= n
                &&& s@.subrange(start as int, start + dec_rep(x as nat).len()) == dec_rep(x as nat)
                &&& (start + dec_rep(x as nat).len() < n ==> spec_digit_val(
                    s@[start + dec_rep(x as nat).len()],
                ) is None)
            } implies Some((val as u16, i)) == Some(
            (x, (start + dec_rep(x as nat).len()) as usize),
        ) by {
            let rep = dec_rep(x as nat);
            lemma_dec_rep_num(x as nat);
            if i < start + rep.len() {
                assert(s@[i as int] == rep[i - start]);
                assert(spec_digit_val(s@[i as int]) is Some);
                assert(false);
            }
            if i > start + rep.len() {
                assert(spec_digit_val(s@[start + rep.len()]) is Some);
                assert(start + rep.len() < n);
                assert(false);
            }
            assert(i == start + rep.len());
            assert(s@.subrange(start as int, i as int) == rep);
            assert(val == x);
        }
    }
    Some((val as u16, i))
}

/// Splitting a joined list after its first `k` parts: one separator stands
/// between the two halves.
proof fn lemma_joined_split(parts: Seq<Seq<char>>, k: int)
    requires
        0 < k < parts.len(),
    ensures
        joined(parts) == joined(parts.take(k)) + seq![','] + joined(parts.skip(k)),
    decreases k,
{
    if k == 1 {
        assert(parts.skip(1) =~= parts.drop_first());
        assert(parts.take(1).len() == 1);
        assert(parts.take(1)[0] == parts[0]);
        assert(joined(parts.take(1)) == parts[0]);
    } else {
        lemma_joined_split(parts.drop_first(), k - 1);
        assert(parts.drop_first().take(k - 1) =~= parts.take(k).drop_first());
        assert(parts.drop_first().skip(k - 1) =~= parts.skip(k));
        assert(parts.take(k)[0] == parts[0]);
        assert(joined(parts.take(k)) == parts[0] + seq![','] + joined(parts.take(k).drop_first()));
        assert(joined(parts) =~= joined(parts.take(k)) + seq![','] + joined(parts.skip(k)));
    }
}

/// Where item `k` of a joined list begins, after a prefix of the given
/// length.
pub open spec fn item_off(prefix_len: int, parts: Seq<Seq<char>>, k: int) -> int {
    prefix_len + (if k == 0 {
        0
    } else {
        joined(parts.take(k)).len() + 1
    })
}

/// Consuming item `k` and its separator lands at the start of item `k + 1`.
proof fn lemma_item_advance(prefix_len: int, parts: Seq<Seq<char>>, k: int)
    requires
        0 <= k < parts.len(),
    ensures
        item_off(prefix_len, parts, k) + parts[k].len() + 1 == item_off(prefix_len, parts, k + 1),
{
    assert(parts.take(k + 1) =~= parts.take(k).push(parts[k]));
    lemma_joined_push(parts.take(k), parts[k]);
}

/// Inside `prefix + joined(parts) + suffix`, item `k` stands at its offset,
/// followed by a comma unless it is the last item.
proof fn lemma_item_at(
    s: Seq<char>,
    prefix: Seq<char>,
    parts: Seq<Seq<char>>,
    suffix: Seq<char>,
    k: int,
)
    requires
        s == prefix + joined(parts) + suffix,
        0 <= k < parts.len(),
    ensures
        ({
            let off = item_off(prefix.len() as int, parts, k);
            &&& prefix.len() <= off
            &&& off + parts[k].len() <= prefix.len() + joined(parts).len()
            &&& s.subrange(off, off + parts[k].len()) == parts[k]
            &&& (k < parts.len() - 1 ==> off + parts[k].len() + 1 <= prefix.len() + joined(
                parts,
            ).len() && s[off + parts[k].len()] == ',')
            &&& (k == parts.len() - 1 ==> off + parts[k].len() == prefix.len() + joined(
                parts,
            ).len())
        }),
{
    let off = item_off(prefix.len() as int, parts, k);
    if k == 0 {
        if parts.len() == 1 {
            assert(joined(parts) == parts[0]);
            assert(s.subrange(off, off + parts[k].len()) =~= parts[k]);
        } else {
            assert(joined(parts) == parts[0] + seq![','] + joined(parts.drop_first()));
            assert(s =~= (prefix + parts[0]) + seq![','] + (joined(parts.drop_first()) + suffix));
            assert(s.subrange(off, off + parts[k].len()) =~= parts[k]);
            assert(s[off + parts[k].len()] == ',');
        }
    } else {
        lemma_joined_split(parts, k);
        let left = prefix + joined(parts.take(k)) + seq![','];
        assert(left.len() == off);
        let sk = parts.skip(k);
        assert(sk[0] == parts[k]);
        if sk.len() == 1 {
            assert(joined(sk) == parts[k]);
            assert(s =~= left + parts[k] + suffix);
            assert(s.subrange(off, off + parts[k].len()) =~= parts[k]);
            assert(k == parts.len() - 1);
            assert(off + parts[k].len() == prefix.len() + joined(parts).len());
        } else {
            assert(joined(sk) == parts[k] + seq![','] + joined(sk.drop_first()));
            assert(s =~= (left + parts[k]) + seq![','] + (joined(sk.drop_first()) + suffix));
            assert(s.subrange(off, off + parts[k].len()) =~= parts[k]);
            assert(s[off + parts[k].len()] == ',');
        }
    }
}

/// Read one board cell: `null` or a quoted piece letter. Where the text at
/// `i` is exactly the rendering of a cell, that cell comes back.
fn parse_cell_at(s: &str, n: usize, i: usize) -> (r: Option<(Option<PieceId>, usize)>)
    requires
        n == s@.len(),
        i <= n,
    ensures
        r matches Some(p) ==> i < p.1 <= n,
        forall|c: Option<PieceId>|
            (i + cell_json(c).len() <= n && s@.subrange(i as int, i + cell_json(c).len())
                == cell_json(c)) ==> r == Some((c, (i + cell_json(c).len()) as usize)),
{
    proof {
        reveal_strlit("null");
        reveal_strlit("\"I\"");
        reveal_strlit("\"O\"");
        reveal_strlit("\"T\"");
        reveal_strlit("\"S\"");
        reveal_strlit("\"Z\"");
        reveal_strlit("\"L\"");
        reveal_strlit("\"J\"");
    }
    if starts_at(s, n, i, "null") {
        proof {
            assert(s@.subrange(i as int, i + 4)[0] == 'n');
            assert(s@[i as int] == 'n');
            assert forall|c: Option<PieceId>|
                (i + cell_json(c).len() <= n && s@.subrange(i as int, i + cell_json(c).len())
                    == cell_json(c)) implies c == None::<PieceId> by {
                assert(s@.subrange(i as int, i + cell_json(c).len())[0] == cell_json(c)[0]);
                assert(s@[i as int] == cell_json(c)[0]);
            }
        }
        return Some((None, i + 4));
    }
    if starts_at(s, n, i, "\"I\"") {
        proof {
            assert(s@.subrange(i as int, i + 3)[0] == '"');
            assert(s@.subrange(i as int, i + 3)[1] == 'I');
            assert(s@[i as int] == '"');
            assert(s@[i + 1] == 'I');
            assert forall|c: Option<PieceId>|
                (i + cell_json(c).len() <= n && s@.subrange(i as int, i + cell_json(c).len())
                    == cell_json(c)) implies c == Some(PieceId::I) by {
                assert(s@.subrange(i as int, i + cell_json(c).len())[0] == cell_json(c)[0]);
                assert(s@.subrange(i as int, i + cell_json(c).len())[1] == cell_json(c)[1]);
                assert(s@[i as int] == cell_json(c)[0]);
                assert(s@[i + 1] == cell_json(c)[1]);
            }
        }
        return Some((Some(PieceId::I), i + 3));
    }
    if starts_at(s, n, i, "\"O\"") {
        proof {
            assert(s@.subrange(i as int, i + 3)[0] == '"');
            assert(s@.subrange(i as int, i + 3)[1] == 'O');
            assert(s@[i as int] == '"');
            assert(s@[i + 1] == 'O');
            assert forall|c: Option<PieceId>|
                (i + cell_json(c).len() <= n && s@.subrange(i as int, i + cell_json(c).len())
                    == cell_json(c)) implies c == Some(PieceId::O) by {
                assert(s@.subrange(i as int, i + cell_json(c).len())[0] == cell_json(c)[0]);
                assert(s@.subrange(i as int, i + cell_json(c).len())[1] == cell_json(c)[1]);
                assert(s@[i as int] == cell_json(c)[0]);
                assert(s@[i + 1] == cell_json(c)[1]);
            }
        }
        return Some((Some(PieceId::O), i + 3));
    }
    if starts_at(s, n, i, "\"T\"") {
        proof {
            assert(s@.subrange(i as int, i + 3)[0] == '"');
            assert(s@.subrange(i as int, i + 3)[1] == 'T');
            assert(s@[i as int] == '"');
            assert(s@[i + 1] == 'T');
            assert forall|c: Option<PieceId>|
                (i + cell_json(c).len() <= n && s@.subrange(i as int, i + cell_json(c).len())
                    == cell_json(c)) implies c == Some(PieceId::T) by {
                assert(s@.subrange(i as int, i + cell_json(c).len())[0] == cell_json(c)[0]);
                assert(s@.subrange(i as int, i + cell_json(c).len())[1] == cell_json(c)[1]);
                assert(s@[i as int] == cell_json(c)[0]);
                assert(s@[i + 1] == cell_json(c)[1]);
            }
        }
        return Some((Some(PieceId::T), i + 3));
    }
    if starts_at(s, n, i, "\"S\"") {
        proof {
            assert(s@.subrange(i as int, i + 3)[0] == '"');
            assert(s@.subrange(i as int, i + 3)[1] == 'S');
            assert(s@[i as int] == '"');
            assert(s@[i + 1] == 'S');
            assert forall|c: Option<PieceId>|
                (i + cell_json(c).len() <= n && s@.subrange(i as int, i + cell_json(c).len())
                    == cell_json(c)) implies c == Some(PieceId::S) by {
                assert(s@.subrange(i as int, i + cell_json(c).len())[0] == cell_json(c)[0]);
                assert(s@.subrange(i as int, i + cell_json(c).len())[1] == cell_json(c)[1]);
                assert(s@[i as int] == cell_json(c)[0]);
                assert(s@[i + 1] == cell_json(c)[1]);
            }
        }
        return Some((Some(PieceId::S), i + 3));
    }
    if starts_at(s, n, i, "\"Z\"") {
        proof {
            assert(s@.subrange(i as int, i + 3)[0] == '"');
            assert(s@.subrange(i as int, i + 3)[1] == 'Z');
            assert(s@[i as int] == '"');
            assert(s@[i + 1] == 'Z');
            assert forall|c: Option<PieceId>|
                (i + cell_json(c).len() <= n && s@.subrange(i as int, i + cell_json(c).len())
                    == cell_json(c)) implies c == Some(PieceId::Z) by {
                assert(s@.subrange(i as int, i + cell_json(c).len())[0] == cell_json(c)[0]);
                assert(s@.subrange(i as int, i + cell_json(c).len())[1] == cell_json(c)[1]);
                assert(s@[i as int] == cell_json(c)[0]);
                assert(s@[i + 1] == cell_json(c)[1]);
            }
        }
        return Some((Some(PieceId::Z), i + 3));
    }
    if starts_at(s, n, i, "\"L\"") {
        proof {
            assert(s@.subrange(i as int, i + 3)[0] == '"');
            assert(s@.subrange(i as int, i + 3)[1] == 'L');
            assert(s@[i as int] == '"');
            assert(s@[i + 1] == 'L');
            assert forall|c: Option<PieceId>|
                (i + cell_json(c).len() <= n && s@.subrange(i as int, i + cell_json(c).len())
                    == cell_json(c)) implies c == Some(PieceId::L) by {
                assert(s@.subrange(i as int, i + cell_json(c).len())[0] == cell_json(c)[0]);
                assert(s@.subrange(i as int, i + cell_json(c).len())[1] == cell_json(c)[1]);
                assert(s@[i as int] == cell_json(c)[0]);
                assert(s@[i + 1] == cell_json(c)[1]);
            }
        }
        return Some((Some(PieceId::L), i + 3));
    }
    if starts_at(s, n, i, "\"J\"") {
        proof {
            assert(s@.subrange(i as int, i + 3)[0] == '"');
            assert(s@.subrange(i as int, i + 3)[1] == 'J');
            assert(s@[i as int] == '"');
            assert(s@[i + 1] == 'J');
            assert forall|c: Option<PieceId>|
                (i + cell_json(c).len() <= n && s@.subrange(i as int, i + cell_json(c).len())
                    == cell_json(c)) implies c == Some(PieceId::J) by {
                assert(s@.subrange(i as int, i + cell_json(c).len())[0] == cell_json(c)[0]);
                assert(s@.subrange(i as int, i + cell_json(c).len())[1] == cell_json(c)[1]);
                assert(s@[i as int] == cell_json(c)[0]);
                assert(s@[i + 1] == cell_json(c)[1]);
            }
        }
        return Some((Some(PieceId::J), i + 3));
    }
    proof {
        assert forall|c: Option<PieceId>|
            (i + cell_json(c).len() <= n && s@.subrange(i as int, i + cell_json(c).len())
                == cell_json(c)) implies false by {
            match c {
                Option::None => {
                    assert(cell_json(c) == "null"@);
                },
                Option::Some(PieceId::I) => {
                    assert(cell_json(c) == "\"I\""@);
                },
                Option::Some(PieceId::O) => {
                    assert(cell_json(c) == "\"O\""@);
                },
                Option::Some(PieceId::T) => {
                    assert(cell_json(c) == "\"T\""@);
                },
                Option::Some(PieceId::S) => {
                    assert(cell_json(c) == "\"S\""@);
                },
                Option::Some(PieceId::Z) => {
                    assert(cell_json(c) == "\"Z\""@);
                },
                Option::Some(PieceId::L) => {
                    assert(cell_json(c) == "\"L\""@);
                },
                Option::Some(PieceId::J) => {
                    assert(cell_json(c) == "\"J\""@);
                },
            }
        }
    }
    None
}

/// A view whose carried board, if any, has the right cell count. Only such
/// views are values of the message type, so only their encodings are owed
/// acceptance.
pub open spec fn view_wf(v: ClientMessageView) -> bool {
    match v {
        ClientMessageView::BoardUpdate(cells) => cells.len() == 200,
        _ => true,
    }
}

/// The rows of a lines-destroyed view; empty for the other kinds.
pub open spec fn lines_of(v: ClientMessageView) -> Seq<u16> {
    match v {
        ClientMessageView::LinesDestroyed(rows) => rows,
        _ => Seq::empty(),
    }
}

/// The cells of a board-update view; empty for the other kinds.
pub open spec fn cells_of(v: ClientMessageView) -> Seq<Option<PieceId>> {
    match v {
        ClientMessageView::BoardUpdate(cells) => cells,
        _ => Seq::empty(),
    }
}

/// Text that starts like a lines-destroyed frame encodes one.
proof fn lemma_variant_lines(s: Seq<char>, v: ClientMessageView)
    requires
        view_wf(v),
        s == client_json(v),
        19 <= s.len(),
        s.subrange(0, 19) == "{\"LinesDestroyed\":["@,
    ensures
        v == ClientMessageView::LinesDestroyed(lines_of(v)),
        s == "{\"LinesDestroyed\":["@ + joined(lines_parts(lines_of(v))) + "]}"@,
{
    reveal_strlit("{\"LinesDestroyed\":[");
    reveal_strlit("{\"BoardUpdate\":");
    reveal_strlit("\"GameOver\"");
    match v {
        ClientMessageView::LinesDestroyed(_) => {},
        ClientMessageView::BoardUpdate(_) => {
            assert(s[2] == 'B');
            assert(s.subrange(0, 19)[2] == 'L');
            assert(false);
        },
        ClientMessageView::GameOver => {
            assert(s.len() == 10);
            assert(false);
        },
    }
}

/// Text that starts like a board-update frame encodes one.
proof fn lemma_variant_board(s: Seq<char>, v: ClientMessageView)
    requires
        view_wf(v),
        s == client_json(v),
        16 <= s.len(),
        s.subrange(0, 16) == "{\"BoardUpdate\":["@,
    ensures
        v == ClientMessageView::BoardUpdate(cells_of(v)),
        cells_of(v).len() == 200,
        s == "{\"BoardUpdate\":["@ + joined(board_parts(cells_of(v))) + "]}"@,
{
    reveal_strlit("{\"BoardUpdate\":[");
    reveal_strlit("{\"BoardUpdate\":");
    reveal_strlit("{\"LinesDestroyed\":[");
    reveal_strlit("\"GameOver\"");
    reveal_strlit("[");
    reveal_strlit("]");
    reveal_strlit("}");
    reveal_strlit("]}");
    match v {
        ClientMessageView::BoardUpdate(cells) => {
            assert(("{\"BoardUpdate\":"@ + "["@) =~= "{\"BoardUpdate\":["@);
            assert(("]"@ + "}"@) =~= "]}"@);
            assert(s =~= ("{\"BoardUpdate\":"@ + "["@) + joined(board_parts(cells)) + ("]"@
                + "}"@));
            assert(s =~= "{\"BoardUpdate\":["@ + joined(board_parts(cells)) + "]}"@);
        },
        ClientMessageView::LinesDestroyed(_) => {
            assert(s[2] == 'L');
            assert(s.subrange(0, 16)[2] == 'B');
            assert(false);
        },
        ClientMessageView::GameOver => {
            assert(s.len() == 10);
            assert(false);
        },
    }
}

/// A first pass over inbound text: it accepts exactly the canonical frames
/// and reconstructs the message; [`parse_client`] then re-encodes the result
/// and holds it to the text, so nothing rests on this function alone.
#[verifier::rlimit(100)]
fn parse_client_loose(s: &str) -> (r: Option<ClientMessage>)
    ensures
        r matches Some(m) ==> client_wf(m),
        (exists|v: ClientMessageView| view_wf(v) && s@ == client_json(v)) ==> (r matches Some(m)
            && client_wf(m) && s@ == client_json(m@)),
{
    let ghost has = exists|v: ClientMessageView| view_wf(v) && s@ == client_json(v);
    let ghost vv = choose|v: ClientMessageView| view_wf(v) && s@ == client_json(v);
    let n = s.unicode_len();
    proof {
        reveal_strlit("\"GameOver\"");
        reveal_strlit("{\"LinesDestroyed\":[");
        reveal_strlit("{\"BoardUpdate\":[");
        reveal_strlit("{\"BoardUpdate\":");
        reveal_strlit("[");
        reveal_strlit("]}");
    }
    if starts_at(s, n, 0, "\"GameOver\"") && n == 10 {
        proof {
            assert(s@ =~= "\"GameOver\""@);
        }
        return Some(ClientMessage::GameOver);
    }
    if starts_at(s, n, 0, "{\"LinesDestroyed\":[") {
        let ghost rowsv = lines_of(vv);
        let ghost parts = lines_parts(rowsv);
        proof {
            if has {
                lemma_variant_lines(s@, vv);
            }
        }
        let mut i: usize = 19;
        let mut rows: Vec<u16> = Vec::new();
        if starts_at(s, n, i, "]}") {
            if i + 2 == n {
                proof {
                    assert(s@ =~= "{\"LinesDestroyed\":["@ + "]}"@);
                    assert(lines_parts(rows@).len() == 0);
                    assert(s@ =~= client_json(ClientMessageView::LinesDestroyed(rows@)));
                }
                return Some(ClientMessage::LinesDestroyed(rows));
            }
            proof {
                if has {
                    if rowsv.len() == 0 {
                        assert(joined(parts).len() == 0);
                        assert(s@.len() == 21);
                        assert(false);
                    } else {
                        lemma_item_at(s@, "{\"LinesDestroyed\":["@, parts, "]}"@, 0);
                        assert(parts[0] == dec_rep(rowsv[0] as nat));
                        lemma_dec_rep_num(rowsv[0] as nat);
                        assert(s@[19] == dec_rep(rowsv[0] as nat)[0]);
                        assert(spec_digit_val(s@[19]) is Some);
                        assert(s@.subrange(19, 21)[0] == ']');
                        assert(spec_digit_val(s@[19]) is None);
                        assert(false);
                    }
                }
            }
            return None;
        }
        proof {
            if has && rowsv.len() == 0 {
                assert(joined(parts).len() == 0);
                assert(s@.subrange(19, 21) =~= "]}"@);
                assert(false);
            }
        }
        loop
            invariant_except_break
                n == s@.len(),
                i <= n,
                has == (exists|v: ClientMessageView| view_wf(v) && s@ == client_json(v)),
                has ==> view_wf(vv) && s@ == client_json(vv),
                has ==> {
                    &&& vv == ClientMessageView::LinesDestroyed(rowsv)
                    &&& rowsv == lines_of(vv)
                    &&& parts == lines_parts(rowsv)
                    &&& s@ == "{\"LinesDestroyed\":["@ + joined(parts) + "]}"@
                    &&& rows@.len() < parts.len()
                    &&& rows@ == rowsv.take(rows@.len() as int)
                    &&& i as int == item_off(19, parts, rows@.len() as int)
                },
            ensures
                n == s@.len(),
                i <= n,
                has ==> rows@ == rowsv && i as int == 19 + joined(parts).len(),
            decreases n - i,
        {
            proof {
                reveal_strlit(",");
                reveal_strlit("{\"LinesDestroyed\":[");
                reveal_strlit("]}");
                if has {
                    let k = rows@.len() as int;
                    lemma_item_at(s@, "{\"LinesDestroyed\":["@, parts, "]}"@, k);
                    assert(parts[k] == dec_rep(rowsv[k] as nat));
                    assert(s@.len() == 21 + joined(parts).len());
                    let off = item_off(19, parts, k);
                    if k < parts.len() - 1 {
                        assert(spec_digit_val(s@[off + parts[k].len()]) is None);
                    } else {
                        assert(s@[19 + joined(parts).len() as int] == ']');
                        assert(spec_digit_val(s@[off + parts[k].len()]) is None);
                    }
                }
            }
            let num = match parse_u16_at(s, n, i) {
                Some(p) => p,
                None => {
                    proof {
                        if has {
                            let k = rows@.len() as int;
                            let rep = dec_rep(rowsv[k] as nat);
                            assert(i + rep.len() <= n);
                            assert(s@.subrange(i as int, i as int + rep.len() as int) == rep);
                            assert(false);
                        }
                    }
                    return None;
                },
            };
            proof {
                if has {
                    let k = rows@.len() as int;
                    let rep = dec_rep(rowsv[k] as nat);
                    assert(i + rep.len() <= n);
                    assert(s@.subrange(i as int, i as int + rep.len() as int) == rep);
                    assert(num == (rowsv[k], (i + parts[k].len()) as usize));
                }
            }
            rows.push(num.0);
            i = num.1;
            if !starts_at(s, n, i, ",") {
                proof {
                    if has {
                        let k = rows@.len() - 1;
                        if k < parts.len() - 1 {
                            assert(s@[i as int] == ',');
                            assert(s@.subrange(i as int, i + 1) =~= ","@);
                            assert(false);
                        }
                        assert(k == parts.len() - 1);
                        assert(rows@ =~= rowsv);
                        assert(i as int == 19 + joined(parts).len());
                    }
                }
                break ;
            }
            i = i + 1;
            proof {
                if has {
                    let k = rows@.len() - 1;
                    if k == parts.len() - 1 {
                        assert(s@[(i - 1) as int] == ']');
                        assert(s@.subrange((i - 1) as int, i as int)[0] == ","@[0]);
                        assert(s@[(i - 1) as int] == ',');
                        assert(false);
                    }
                    lemma_item_advance(19, parts, k as int);
                    assert(rows@ =~= rowsv.take(rows@.len() as int));
                }
            }
        }
        if starts_at(s, n, i, "]}") {
            if i + 2 == n {
                proof {
                    if has {
                        assert(rows@ == rowsv);
                        assert(ClientMessage::LinesDestroyed(rows)@ == vv);
                    }
                }
                return Some(ClientMessage::LinesDestroyed(rows));
            }
            proof {
                if has {
                    assert(s@.len() == 21 + joined(parts).len());
                    assert(false);
                }
            }
            return None;
        }
        proof {
            if has {
                assert(s@.subrange(i as int, i + 2) =~= "]}"@);
                assert(false);
            }
        }
        return None;
    }
    if starts_at(s, n, 0, "{\"BoardUpdate\":[") {
        let ghost cellsv = cells_of(vv);
        let ghost bparts = board_parts(cellsv);
        proof {
            if has {
                lemma_variant_board(s@, vv);
            }
        }
        let mut i: usize = 16;
        let mut cells: Vec<Option<PieceId>> = Vec::new();
        let mut r: usize = 0;
        while r < 20
            invariant
                n == s@.len(),
                i <= n,
                r <= 20,
                cells@.len() == r * 10,
                has == (exists|v: ClientMessageView| view_wf(v) && s@ == client_json(v)),
                has ==> view_wf(vv) && s@ == client_json(vv),
                has ==> {
                    &&& vv == ClientMessageView::BoardUpdate(cellsv)
                    &&& cellsv == cells_of(vv)
                    &&& cellsv.len() == 200
                    &&& bparts == board_parts(cellsv)
                    &&& s@ == "{\"BoardUpdate\":["@ + joined(bparts) + "]}"@
                    &&& cells@ == cellsv.take((r * 10) as int)
                    &&& i as int == (if r == 0 {
                        16
                    } else {
                        item_off(16, bparts, r as int) - 1
                    })
                },
            decreases 20 - r,
        {
            proof {
                reveal_strlit(",");
                reveal_strlit("[");
                reveal_strlit("]");
                reveal_strlit("{\"BoardUpdate\":[");
                reveal_strlit("]}");
                if has {
                    lemma_item_at(s@, "{\"BoardUpdate\":["@, bparts, "]}"@, r as int);
                    assert(bparts[r as int] == row_json(cellsv, r as int));
                    if r > 0 {
                        lemma_item_at(s@, "{\"BoardUpdate\":["@, bparts, "]}"@, r as int - 1);
                        lemma_item_advance(16, bparts, r as int - 1);
                    }
                }
            }
            if r > 0 {
                if !starts_at(s, n, i, ",") {
                    proof {
                        if has {
                            assert(s@[i as int] == ',');
                            assert(s@.subrange(i as int, i + 1) =~= ","@);
                            assert(false);
                        }
                    }
                    return None;
                }
                i = i + 1;
            }
            let ghost off_r = item_off(16, bparts, r as int);
            let ghost rparts = row_parts(cellsv, r as int);
            proof {
                if has {
                    assert(i as int == off_r);
                    assert(bparts[r as int] == "["@ + joined(rparts) + "]"@);
                    assert(bparts[r as int].len() == 2 + joined(rparts).len());
                    assert(s@.subrange(off_r, off_r + bparts[r as int].len())[0]
                        == bparts[r as int][0]);
                    assert(s@[off_r] == '[');
                    assert forall|t: int|
                        0 <= t < joined(rparts).len() implies s@[off_r + 1 + t] == joined(
                        rparts,
                    )[t] by {
                        assert(s@.subrange(off_r, off_r + bparts[r as int].len())[1 + t]
                            == bparts[r as int][1 + t]);
                    }
                    assert(s@[off_r + 1 + joined(rparts).len()] == ']') by {
                        assert(s@.subrange(off_r, off_r + bparts[r as int].len())[1 + joined(
                            rparts,
                        ).len() as int] == bparts[r as int][1 + joined(rparts).len() as int]);
                    }
                }
            }
            if !starts_at(s, n, i, "[") {
                proof {
                    if has {
                        assert(s@.subrange(i as int, i + 1) =~= "["@);
                        assert(false);
                    }
                }
                return None;
            }
            i = i + 1;
            proof {
                if has {
                    assert(s@ =~= s@.take(off_r + 1) + joined(rparts) + s@.skip(
                        off_r + 1 + joined(rparts).len(),
                    ));
                }
            }
            let mut c: usize = 0;
            while c < 10
                invariant
                    n == s@.len(),
                    i <= n,
                    r < 20,
                    c <= 10,
                    cells@.len() == r * 10 + c,
                    has == (exists|v: ClientMessageView| view_wf(v) && s@ == client_json(v)),
                    has ==> view_wf(vv) && s@ == client_json(vv),
                    has ==> {
                        &&& vv == ClientMessageView::BoardUpdate(cellsv)
                        &&& cellsv.len() == 200
                        &&& bparts == board_parts(cellsv)
                        &&& rparts == row_parts(cellsv, r as int)
                        &&& s@ == "{\"BoardUpdate\":["@ + joined(bparts) + "]}"@
                        &&& off_r == item_off(16, bparts, r as int)
                        &&& s@ == s@.take(off_r + 1) + joined(rparts) + s@.skip(
                            off_r + 1 + joined(rparts).len(),
                        )
                        &&& cells@ == cellsv.take((r * 10 + c) as int)
                        &&& i as int == (if c == 0 {
                            off_r + 1
                        } else {
                            item_off(off_r + 1, rparts, c as int) - 1
                        })
                    },
                decreases 10 - c,
            {
                proof {
                    reveal_strlit(",");
                    if has {
                        lemma_item_at(
                            s@,
                            s@.take(off_r + 1),
                            rparts,
                            s@.skip(off_r + 1 + joined(rparts).len()),
                            c as int,
                        );
                        assert(rparts[c as int] == cell_json(
                            cellsv[r as int * 10 + c as int],
                        ));
                        if c > 0 {
                            lemma_item_at(
                                s@,
                                s@.take(off_r + 1),
                                rparts,
                                s@.skip(off_r + 1 + joined(rparts).len()),
                                c as int - 1,
                            );
                            lemma_item_advance(off_r + 1, rparts, c as int - 1);
                        }
                    }
                }
                if c > 0 {
                    if !starts_at(s, n, i, ",") {
                        proof {
                            if has {
                                assert(s@[i as int] == ',');
                                assert(s@.subrange(i as int, i + 1) =~= ","@);
                                assert(false);
                            }
                        }
                        return None;
                    }
                    i = i + 1;
                }
                let cell = match parse_cell_at(s, n, i) {
                    Some(p) => p,
                    None => {
                        proof {
                            if has {
                                let cj = cell_json(cellsv[r as int * 10 + c as int]);
                                assert(i + cj.len() <= n);
                                assert(s@.subrange(i as int, i as int + cj.len() as int) == cj);
                                assert(false);
                            }
                        }
                        return None;
                    },
                };
                proof {
                    if has {
                        let k = c as int;
                        let cj = cell_json(cellsv[r as int * 10 + k]);
                        assert(i + cj.len() <= n);
                        assert(s@.subrange(i as int, i as int + cj.len() as int) == cj);
                        assert(cell == (
                            cellsv[r as int * 10 + k],
                            (i + rparts[k].len()) as usize,
                        ));
                    }
                }
                cells.push(cell.0);
                i = cell.1;
                proof {
                    if has {
                        assert(cells@ =~= cellsv.take((r * 10 + c + 1) as int));
                        lemma_item_advance(off_r + 1, rparts, c as int);
                    }
                }
                c += 1;
            }
            proof {
                reveal_strlit("]");
                if has {
                    lemma_item_at(
                        s@,
                        s@.take(off_r + 1),
                        rparts,
                        s@.skip(off_r + 1 + joined(rparts).len()),
                        9,
                    );
                    assert(rparts.take(10) =~= rparts);
                    assert(i as int == off_r + 1 + joined(rparts).len());
                    assert(s@[i as int] == ']');
                }
            }
            if !starts_at(s, n, i, "]") {
                proof {
                    if has {
                        assert(s@.subrange(i as int, i + 1) =~= "]"@);
                        assert(false);
                    }
                }
                return None;
            }
            i = i + 1;
            proof {
                if has {
                    lemma_item_advance(16, bparts, r as int);
                    assert(bparts[r as int].len() == 2 + joined(rparts).len());
                    assert(i as int == item_off(16, bparts, r as int) + bparts[r as int].len());
                    assert(i as int == item_off(16, bparts, r as int + 1) - 1);
                    assert(cells@ =~= cellsv.take(((r + 1) * 10) as int));
                }
            }
            r += 1;
        }
        proof {
            reveal_strlit("]}");
            if has {
                assert(bparts.take(20) =~= bparts);
                assert(i as int == 16 + joined(bparts).len());
                assert(s@.len() == 18 + joined(bparts).len());
                assert(s@.subrange(i as int, i + 2) =~= "]}"@);
            }
        }
        if starts_at(s, n, i, "]}") && i + 2 == n {
            proof {
                if has {
                    assert(cells@ =~= cellsv);
                    assert(ClientMessage::BoardUpdate(crate::board::Board(cells))@ == vv);
                }
            }
            return Some(ClientMessage::BoardUpdate(crate::board::Board(cells)));
        }
        proof {
            if has {
                assert(false);
            }
        }
        return None;
    }
    proof {
        if has {
            reveal_strlit("\"GameOver\"");
            reveal_strlit("{\"LinesDestroyed\":[");
            reveal_strlit("{\"BoardUpdate\":[");
            reveal_strlit("{\"BoardUpdate\":");
            reveal_strlit("[");
            reveal_strlit("]");
            reveal_strlit("}");
            reveal_strlit("]}");
            match vv {
                ClientMessageView::GameOver => {
                    assert(s@ =~= "\"GameOver\""@);
                    assert(s@.subrange(0, 10) =~= "\"GameOver\""@);
                    assert(false);
                },
                ClientMessageView::LinesDestroyed(_) => {
                    assert(s@ == "{\"LinesDestroyed\":["@ + joined(lines_parts(lines_of(vv)))
                        + "]}"@);
                    assert(s@.subrange(0, 19) =~= "{\"LinesDestroyed\":["@);
                    assert(false);
                },
                ClientMessageView::BoardUpdate(cells) => {
                    assert(("{\"BoardUpdate\":"@ + "["@) =~= "{\"BoardUpdate\":["@);
                    assert(("]"@ + "}"@) =~= "]}"@);
                    assert(s@ =~= ("{\"BoardUpdate\":"@ + "["@) + joined(board_parts(cells)) + (
                    "]"@ + "}"@));
                    assert(s@ =~= "{\"BoardUpdate\":["@ + joined(board_parts(cells)) + "]}"@);
                    assert(s@.subrange(0, 16) =~= "{\"BoardUpdate\":["@);
                    assert(false);
                },
            }
        }
    }
    None
}

/// Decode one inbound frame. Success means the text is, character for
/// character, the encoding of the returned message; and every message's
/// encoding is accepted. Any other text, however close, is reported as
/// malformed.
pub fn parse_client(s: &str) -> (r: Option<ClientMessage>)
    ensures
        r matches Some(m) ==> client_wf(m) && s@ == client_json(m@),
        (exists|v: ClientMessageView| view_wf(v) && s@ == client_json(v)) ==> r is Some,
{
    let m = match parse_client_loose(s) {
        Some(m) => m,
        None => { return None },
    };
    let enc = encode_client(&m);
    let owned = s.to_owned();
    if enc == owned {
        Some(m)
    } else {
        proof {
            if exists|v: ClientMessageView| view_wf(v) && s@ == client_json(v) {
                assert(s@ == client_json(m@));
                assert(false);
            }
        }
        None
    }
}

} // verus!
