use vstd::prelude::*;

verus! {

/// A fatal error while turning a grid into hexagonal cells.
#[derive(Debug, Clone, Copy, PartialEq, Eq, Structural)]
pub enum GridError {
    /// A header or body token is malformed.
    Parse,
    /// A hexagonal-index operation failed on a cell.
    Tessellation,
    /// An averaged value does not fit in sixteen bits.
    Narrowing,
}

/// The value of a string of decimal digits.
pub open spec fn digits_value(s: Seq<char>) -> nat
    decreases s.len(),
{
    if s.len() == 0 {
        0
    } else {
        digits_value(s.drop_last()) * 10 + ((s.last() as u32) - ('0' as u32)) as nat
    }
}

pub open spec fn all_digits(s: Seq<char>) -> bool {
    s.len() > 0 && forall|i: int| 0 <= i < s.len() ==> '0' <= #[trigger] s[i] <= '9'
}

/// What an unsigned decimal token denotes: an optional `+`, then one or
/// more digits whose value fits in 64 bits.
pub open spec fn u64_token(s: Seq<char>) -> Option<u64> {
    let d = if s.len() > 0 && s[0] == '+' { s.drop_first() } else { s };
    if all_digits(d) && digits_value(d) <= u64::MAX {
        Some(digits_value(d) as u64)
    } else {
        None
    }
}

/// Relies on `str::parse::<u64>`: an optional `+` and decimal digits, no
/// overflow.
#[verifier::external_body]
fn parse_u64(s: &str) -> (r: Option<u64>)
    ensures
        r == u64_token(s@),
{
    s.parse::<u64>().ok()
}

/// The pieces of a line between runs of whitespace.
pub uninterp spec fn tokens_of(s: Seq<char>) -> Seq<Seq<char>>;

/// Relies on `str::split_whitespace`: the line's tokens, in order.
#[verifier::external_body]
fn split_tokens(line: &str) -> (r: Vec<String>)
    ensures
        r@.map_values(|t: String| t@) == tokens_of(line@),
{
    line.split_whitespace().map(|t| t.to_string()).collect()
}


fn token_is(tok: &String, word: &str) -> (r: bool)
    ensures
        r == (tok@ == word@),
{
    let w: String = word.to_owned();
    tok.eq(&w)
}

/// The header of an ASCII grid. The three coordinates are kept as the
/// tokens that gave them; `None` stands for an absent key, read as zero.
pub struct Header {
    pub ncols: u64,
    pub nrows: u64,
    pub xllcorner: Option<String>,
    pub yllcorner: Option<String>,
    pub cellsize: Option<String>,
    pub nodata: String,
}

impl Header {
    /// The header before any key has been read.
    pub fn new() -> (r: Header)
        ensures
            r.ncols == 0,
            r.nrows == 0,
            r.xllcorner is None,
            r.yllcorner is None,
            r.cellsize is None,
            r.nodata@ == "-1"@,
    {
        Header {
            ncols: 0,
            nrows: 0,
            xllcorner: None,
            yllcorner: None,
            cellsize: None,
            nodata: "-1".to_owned(),
        }
    }
}

pub open spec fn is_count_key(k: Seq<char>) -> bool {
    k == "ncols"@ || k == "nrows"@
}

pub open spec fn is_header_key(k: Seq<char>) -> bool {
    is_count_key(k) || k == "xllcorner"@ || k == "yllcorner"@ || k == "cellsize"@ || k
        == "NODATA_value"@
}

/// A header line is rejected when it names a key but gives no value, or
/// gives a count that is not an unsigned integer.
pub open spec fn header_line_fails(t: Seq<Seq<char>>) -> bool {
    t.len() >= 1 && is_header_key(t[0]) && (t.len() < 2 || (is_count_key(t[0]) && u64_token(
        t[1],
    ) is None))
}

/// How an accepted header line changes the header: the named field takes
/// the line's second token; lines of any other key change nothing.
pub open spec fn header_line_sets(h: Header, t: Seq<Seq<char>>, n: Header) -> bool {
    let key = if t.len() >= 1 { t[0] } else { Seq::empty() };
    &&& n.ncols == (if key == "ncols"@ { u64_token(t[1])->0 } else { h.ncols })
    &&& n.nrows == (if key == "nrows"@ { u64_token(t[1])->0 } else { h.nrows })
    &&& n.xllcorner == (if key == "xllcorner"@ { Some(n.xllcorner->0) } else { h.xllcorner })
    &&& (key == "xllcorner"@ ==> n.xllcorner->0@ == t[1])
    &&& n.yllcorner == (if key == "yllcorner"@ { Some(n.yllcorner->0) } else { h.yllcorner })
    &&& (key == "yllcorner"@ ==> n.yllcorner->0@ == t[1])
    &&& n.cellsize == (if key == "cellsize"@ { Some(n.cellsize->0) } else { h.cellsize })
    &&& (key == "cellsize"@ ==> n.cellsize->0@ == t[1])
    &&& n.nodata == (if key == "NODATA_value"@ { n.nodata } else { h.nodata })
    &&& (key == "NODATA_value"@ ==> n.nodata@ == t[1])
}

/// A body token that stands for no value: the nodata token or `0`.
pub open spec fn is_skipped(tok: Seq<char>, nodata: Seq<char>) -> bool {
    tok == nodata || tok == "0"@
}

/// The cell after `(col, row)`: one to the right, or the first of the next
/// row once `ncols` cells of the row have been read.
pub open spec fn next_cell(ncols: u64, col: u64, row: u64) -> (u64, u64) {
    if col + 1 >= ncols {
        (0, if row < u64::MAX { (row + 1) as u64 } else { row })
    } else {
        ((col + 1) as u64, row)
    }
}

/// Reading body tokens from cell `(col, row)`: the cell reached after them,
/// and each retained token with the cell it stands in, in order.
pub open spec fn body_run(ncols: u64, nodata: Seq<char>, col: u64, row: u64, toks: Seq<Seq<char>>) -> (
    u64,
    u64,
    Seq<(u64, u64, Seq<char>)>,
)
    decreases toks.len(),
{
    if toks.len() == 0 {
        (col, row, Seq::empty())
    } else {
        let (c, r) = next_cell(ncols, col, row);
        let rest = body_run(ncols, nodata, c, r, toks.drop_first());
        if is_skipped(toks[0], nodata) {
            rest
        } else {
            (rest.0, rest.1, seq![(col, row, toks[0])] + rest.2)
        }
    }
}


/// A body token that carries a value, with the cell it stands in: `col`
/// counts from the left edge and `row` from the top edge of the grid.
pub struct Retained {
    pub col: u64,
    pub row: u64,
    pub token: String,
}

impl View for Retained {
    type V = (u64, u64, Seq<char>);

    open spec fn view(&self) -> (u64, u64, Seq<char>) {
        (self.col, self.row, self.token@)
    }
}

/// The streaming reader of one grid: first its header, then, once the
/// nodata key has been read, its body, with the cell that the next body
/// token stands in.
pub struct AscReader {
    pub header: Header,
    pub in_body: bool,
    pub col: u64,
    pub row: u64,
}

impl AscReader {
    pub open spec fn wf(&self) -> bool {
        &&& (self.in_body || (self.col == 0 && self.row == 0))
        &&& (self.col == 0 || self.col < self.header.ncols)
    }

    /// A reader before the first line.
    pub fn new() -> (r: AscReader)
        ensures
            r.wf(),
            !r.in_body,
            r.header.ncols == 0,
            r.header.nrows == 0,
            r.header.xllcorner is None,
            r.header.yllcorner is None,
            r.header.cellsize is None,
            r.header.nodata@ == "-1"@,
    {
        AscReader { header: Header::new(), in_body: false, col: 0, row: 0 }
    }

    fn read_header_tokens(&mut self, toks: &Vec<String>) -> (r: Result<(), GridError>)
        requires
            old(self).wf(),
            !old(self).in_body,
        ensures
            final(self).wf(),
            r is Err <==> header_line_fails(token_views(toks@)),
            r == Err::<(), GridError>(GridError::Parse) || r is Ok,
            r is Err ==> *final(self) == *old(self),
            r is Ok ==> header_line_sets(old(self).header, token_views(toks@), final(self).header),
            r is Ok ==> final(self).in_body == (toks@.len() >= 1 && toks@[0]@ == "NODATA_value"@),
            final(self).col == 0,
            final(self).row == 0,
    {
        let ghost t = token_views(toks@);
        proof {
            reveal_strlit("ncols");
            reveal_strlit("nrows");
            reveal_strlit("xllcorner");
            reveal_strlit("yllcorner");
            reveal_strlit("cellsize");
            reveal_strlit("NODATA_value");
            assert("ncols"@[1] != "nrows"@[1]);
            assert("xllcorner"@[0] != "yllcorner"@[0]);
        }
        if toks.len() == 0 {
            assert("ncols"@.len() == 5 && "nrows"@.len() == 5 && "cellsize"@.len() == 8);
            assert("xllcorner"@.len() == 9 && "yllcorner"@.len() == 9);
            assert("NODATA_value"@.len() == 12);
            assert(!is_header_key(Seq::empty()));
            return Ok(());
        }
        let key = &toks[0];
        assert(t[0] == key@);
        let is_ncols = token_is(key, "ncols");
        let is_nrows = token_is(key, "nrows");
        let is_x = token_is(key, "xllcorner");
        let is_y = token_is(key, "yllcorner");
        let is_size = token_is(key, "cellsize");
        let is_nodata = token_is(key, "NODATA_value");
        if !(is_ncols || is_nrows || is_x || is_y || is_size || is_nodata) {
            return Ok(());
        }
        if toks.len() < 2 {
            return Err(GridError::Parse);
        }
        let value = &toks[1];
        assert(t[1] == value@);
        if is_ncols || is_nrows {
            match parse_u64(value.as_str()) {
                None => {
                    return Err(GridError::Parse);
                },
                Some(n) => {
                    if is_ncols {
                        self.header.ncols = n;
                    } else {
                        self.header.nrows = n;
                    }
                },
            }
        } else if is_x {
            self.header.xllcorner = Some(value.clone());
        } else if is_y {
            self.header.yllcorner = Some(value.clone());
        } else if is_size {
            self.header.cellsize = Some(value.clone());
        } else {
            self.header.nodata = value.clone();
            self.in_body = true;
        }
        Ok(())
    }

    fn read_body_tokens(&mut self, toks: &Vec<String>) -> (r: Vec<Retained>)
        requires
            old(self).wf(),
            old(self).in_body,
        ensures
            final(self).wf(),
            final(self).in_body,
            final(self).header == old(self).header,
            (final(self).col, final(self).row, r@.map_values(|x: Retained| x@)) == body_run(
                old(self).header.ncols,
                old(self).header.nodata@,
                old(self).col,
                old(self).row,
                token_views(toks@),
            ),
    {
        let ghost t = token_views(toks@);
        let ghost start = *self;
        proof {
            reveal_strlit("0");
            assert(t.skip(0) =~= t);
        }
        let mut out: Vec<Retained> = Vec::new();
        let mut i: usize = 0;
        while i < toks.len()
            invariant
                self.wf(),
                self.in_body,
                self.header == start.header,
                i <= toks.len(),
                t == token_views(toks@),
                body_run(start.header.ncols, start.header.nodata@, start.col, start.row, t) == ({
                    let rest = body_run(
                        self.header.ncols,
                        self.header.nodata@,
                        self.col,
                        self.row,
                        t.skip(i as int),
                    );
                    (rest.0, rest.1, out@.map_values(|x: Retained| x@) + rest.2)
                }),
            decreases toks.len() - i,
        {
            let tok = &toks[i];
            assert(t[i as int] == tok@);
            let skip = tok.eq(&self.header.nodata) || token_is(tok, "0");
            let ghost before = out@.map_values(|x: Retained| x@);
            if !skip {
                out.push(Retained { col: self.col, row: self.row, token: tok.clone() });
                assert(out@.map_values(|x: Retained| x@) =~= before + seq![(self.col, self.row, tok@)]);
            }
            let ghost (c0, r0) = (self.col, self.row);
            if self.col + 1 >= self.header.ncols {
                self.col = 0;
                if self.row < u64::MAX {
                    self.row = self.row + 1;
                }
            } else {
                self.col = self.col + 1;
            }
            proof {
                assert(t.skip(i as int).drop_first() =~= t.skip(i + 1));
                assert(t.skip(i as int)[0] == tok@);
                let rest = body_run(self.header.ncols, self.header.nodata@, self.col, self.row, t.skip(i + 1));
                if !skip {
                    assert(before + (seq![(c0, r0, tok@)] + rest.2) =~= out@.map_values(|x: Retained| x@) + rest.2);
                }
            }
            i = i + 1;
        }
        proof {
            assert(t.skip(i as int) =~= Seq::<Seq<char>>::empty());
            assert(out@.map_values(|x: Retained| x@) + Seq::empty() =~= out@.map_values(|x: Retained| x@));
        }
        out
    }

    /// Reads one line's tokens: a header line until the nodata key has been
    /// read, then body tokens.
    pub fn feed_tokens(&mut self, toks: &Vec<String>) -> (r: Result<Vec<Retained>, GridError>)
        requires
            old(self).wf(),
        ensures
            final(self).wf(),
            reads(*old(self), token_views(toks@), *final(self), r),
    {
        if self.in_body {
            let out = self.read_body_tokens(toks);
            Ok(out)
        } else {
            match self.read_header_tokens(toks) {
                Ok(()) => Ok(Vec::new()),
                Err(e) => Err(e),
            }
        }
    }

    /// Reads one line of the grid's text, split at whitespace.
    pub fn feed_line(&mut self, line: &str) -> (r: Result<Vec<Retained>, GridError>)
        requires
            old(self).wf(),
        ensures
            final(self).wf(),
            reads(*old(self), tokens_of(line@), *final(self), r),
    {
        let toks = split_tokens(line);
        self.feed_tokens(&toks)
    }
}

pub open spec fn token_views(v: Seq<String>) -> Seq<Seq<char>> {
    v.map_values(|t: String| t@)
}

/// What reading the tokens `t` of one line does to reader `a`, giving
/// reader `b` and result `r`. In the header an accepted line retains
/// nothing, a rejected one changes nothing; in the body every token is
/// accepted.
pub open spec fn reads(a: AscReader, t: Seq<Seq<char>>, b: AscReader, r: Result<Vec<Retained>, GridError>) -> bool {
    if a.in_body {
        &&& r is Ok
        &&& b.in_body
        &&& b.header == a.header
        &&& (b.col, b.row, r->Ok_0@.map_values(|x: Retained| x@)) == body_run(
            a.header.ncols,
            a.header.nodata@,
            a.col,
            a.row,
            t,
        )
    } else {
        &&& (r is Err <==> header_line_fails(t))
        &&& (r is Err ==> r == Err::<Vec<Retained>, GridError>(GridError::Parse) && b == a)
        &&& (r is Ok ==> {
            &&& r->Ok_0@.len() == 0
            &&& header_line_sets(a.header, t, b.header)
            &&& b.in_body == (t.len() >= 1 && t[0] == "NODATA_value"@)
            &&& b.col == 0
            &&& b.row == 0
        })
    }
}

/// Line boundaries do not matter in the body: reading tokens `a` and then,
/// from where they left the cursor, tokens `b`, reaches the same cell and
/// retains the same tokens as reading `a + b` at once.
pub proof fn law_body_lines_split(
    ncols: u64,
    nodata: Seq<char>,
    col: u64,
    row: u64,
    a: Seq<Seq<char>>,
    b: Seq<Seq<char>>,
)
    ensures
        ({
            let ra = body_run(ncols, nodata, col, row, a);
            let rb = body_run(ncols, nodata, ra.0, ra.1, b);
            body_run(ncols, nodata, col, row, a + b) == (rb.0, rb.1, ra.2 + rb.2)
        }),
    decreases a.len(),
{
    if a.len() == 0 {
        assert(a + b =~= b);
        assert(Seq::<(u64, u64, Seq<char>)>::empty() + body_run(ncols, nodata, col, row, b).2
            =~= body_run(ncols, nodata, col, row, b).2);
    } else {
        let (c, r) = next_cell(ncols, col, row);
        assert((a + b).drop_first() =~= a.drop_first() + b);
        assert((a + b)[0] == a[0]);
        law_body_lines_split(ncols, nodata, c, r, a.drop_first(), b);
        let ra = body_run(ncols, nodata, c, r, a.drop_first());
        let rb = body_run(ncols, nodata, ra.0, ra.1, b);
        assert(seq![(col, row, a[0])] + (ra.2 + rb.2) =~= (seq![(col, row, a[0])] + ra.2) + rb.2);
    }
}

/// With `ncols` positive the column stays below `ncols`, and it wraps to
/// the next row exactly every `ncols` tokens: each token, skipped or not,
/// moves the cursor one cell along the grid in row-major order.
pub proof fn law_body_position(ncols: u64, nodata: Seq<char>, col: u64, row: u64, toks: Seq<Seq<char>>)
    requires
        ncols > 0,
        col < ncols,
        row + toks.len() <= u64::MAX,
    ensures
        ({
            let r = body_run(ncols, nodata, col, row, toks);
            &&& r.0 < ncols
            &&& r.1 * ncols + r.0 == row * ncols + col + toks.len()
        }),
    decreases toks.len(),
{
    if toks.len() > 0 {
        let (c, r) = next_cell(ncols, col, row);
        if col + 1 >= ncols {
            assert((row + 1) * ncols == row * ncols + ncols) by (nonlinear_arith);
        }
        law_body_position(ncols, nodata, c, r, toks.drop_first());
    }
}

/// A skipped token (the nodata token or `0`) moves the cursor exactly one
/// cell and retains nothing.
pub proof fn law_skipped_token(ncols: u64, nodata: Seq<char>, col: u64, row: u64, tok: Seq<char>)
    requires
        is_skipped(tok, nodata),
    ensures
        body_run(ncols, nodata, col, row, seq![tok]) == (
            next_cell(ncols, col, row).0,
            next_cell(ncols, col, row).1,
            Seq::<(u64, u64, Seq<char>)>::empty(),
        ),
{
    let (c, r) = next_cell(ncols, col, row);
    assert(seq![tok].drop_first() =~= Seq::<Seq<char>>::empty());
    assert(body_run(ncols, nodata, c, r, Seq::<Seq<char>>::empty()) == (c, r, Seq::<(u64, u64, Seq<char>)>::empty()));
}

} // verus!
