use vstd::prelude::*;
use vstd::string::StringExecFns;

verus! {

/// What went wrong in connecting a control. Values and ranges are held as the bit
/// patterns of the 64-bit floats they were given as.
#[derive(Debug, PartialEq, Eq)]
pub enum ErrorKind {
    /// A value outside its range.
    Range { value: u64, range: (u64, u64) },
    /// Two controls whose ranges differ.
    RangeMismatch { trg_range: (u64, u64), src_range: (u64, u64) },
    /// A connection that would make a function depend on itself.
    CircRef { id: usize },
    /// An identifier met twice while mapping identifiers to functions.
    DoubleId { id: usize },
    /// A source whose function could not be found.
    FNotFound { id: usize },
    /// A source with no function assigned.
    PhantomF,
}

/// An error in connecting controls, with where it arose.
#[derive(Debug)]
pub struct ControlError {
    path: Vec<String>,
    origin: String,
    control: String,
    kind: ErrorKind,
}

impl ControlError {
    /// The locations passed through, innermost first.
    pub closed spec fn spec_path(&self) -> Seq<Seq<char>> {
        self.path@.map_values(|s: String| s@)
    }

    /// The part that the error arose in.
    pub closed spec fn spec_origin(&self) -> Seq<char> {
        self.origin@
    }

    /// The control that the error arose at.
    pub closed spec fn spec_control(&self) -> Seq<char> {
        self.control@
    }

    /// What went wrong.
    pub closed spec fn spec_kind(&self) -> ErrorKind {
        self.kind
    }

    /// The error is the one of a source with no function.
    pub open spec fn is_phantom_f(&self) -> bool {
        self.spec_kind() == ErrorKind::PhantomF
    }

    /// A fresh error of kind `kind`, with no location yet.
    pub open spec fn is_fresh(&self, kind: ErrorKind) -> bool {
        &&& self.spec_kind() == kind
        &&& self.spec_path() == Seq::<Seq<char>>::empty()
        &&& self.spec_origin() == Seq::<char>::empty()
        &&& self.spec_control() == Seq::<char>::empty()
    }

    fn fresh(kind: ErrorKind) -> (res: Self)
        ensures
            res.is_fresh(kind),
    {
        let res = Self { path: Vec::new(), origin: String::new(), control: String::new(), kind };
        assert(res.spec_path() =~= Seq::<Seq<char>>::empty());
        res
    }

    /// A value (given by its bit pattern) outside its range.
    pub fn new_range_err(value: u64, range: (u64, u64)) -> (res: Self)
        ensures
            res.is_fresh(ErrorKind::Range { value, range }),
    {
        Self::fresh(ErrorKind::Range { value, range })
    }

    /// Two ranges (given by bit patterns) that differ.
    pub fn new_range_mismatch_err(trg_range: (u64, u64), src_range: (u64, u64)) -> (res: Self)
        ensures
            res.is_fresh(ErrorKind::RangeMismatch { trg_range, src_range }),
    {
        Self::fresh(ErrorKind::RangeMismatch { trg_range, src_range })
    }

    /// A connection to `id` that would close a circle.
    pub fn new_circ_ref_err(id: usize) -> (res: Self)
        ensures
            res.is_fresh(ErrorKind::CircRef { id }),
    {
        Self::fresh(ErrorKind::CircRef { id })
    }

    /// The identifier `id` met twice.
    pub fn new_double_id_err(id: usize) -> (res: Self)
        ensures
            res.is_fresh(ErrorKind::DoubleId { id }),
    {
        Self::fresh(ErrorKind::DoubleId { id })
    }

    /// The function `id` not found.
    pub fn new_func_not_found(id: usize) -> (res: Self)
        ensures
            res.is_fresh(ErrorKind::FNotFound { id }),
    {
        Self::fresh(ErrorKind::FNotFound { id })
    }

    /// A source with no function assigned.
    pub fn new_phantom_f_err() -> (res: Self)
        ensures
            res.is_fresh(ErrorKind::PhantomF),
    {
        Self::fresh(ErrorKind::PhantomF)
    }

    /// The same error, with `origin` and `control` appended to where it arose.
    pub fn set_origin(self, origin: &str, control: &str) -> (res: Self)
        ensures
            res.spec_kind() == self.spec_kind(),
            res.spec_path() == self.spec_path(),
            res.spec_origin() == self.spec_origin() + origin@,
            res.spec_control() == self.spec_control() + control@,
    {
        let mut res = self;
        res.origin.append(origin);
        res.control.append(control);
        res
    }

    /// The same error, with `location` added at the end of its path.
    pub fn push_location(self, location: &str) -> (res: Self)
        ensures
            res.spec_kind() == self.spec_kind(),
            res.spec_path() == self.spec_path().push(location@),
            res.spec_origin() == self.spec_origin(),
            res.spec_control() == self.spec_control(),
    {
        let mut res = self;
        let ghost before = res.path@;
        res.path.push(String::from_str(location));
        assert(res.spec_path() =~= self.spec_path().push(location@));
        res
    }

    /// What went wrong.
    pub fn kind(&self) -> (res: &ErrorKind)
        ensures
            *res == self.spec_kind(),
    {
        &self.kind
    }

    /// The locations passed through.
    pub fn path(&self) -> (res: &Vec<String>)
        ensures
            res@.map_values(|s: String| s@) == self.spec_path(),
    {
        &self.path
    }

    /// The part that the error arose in.
    pub fn origin(&self) -> (res: &String)
        ensures
            res@ == self.spec_origin(),
    {
        &self.origin
    }

    /// The control that the error arose at.
    pub fn control(&self) -> (res: &String)
        ensures
            res@ == self.spec_control(),
    {
        &self.control
    }
}

/// Refuses a connection to `id` when `id` is among the identifiers `ids` that the
/// new source depends on.
pub fn check_id(ids: &[usize], id: usize) -> (res: Result<(), ControlError>)
    ensures
        ids@.contains(id) <==> res is Err,
        res matches Err(e) ==> e.is_fresh(ErrorKind::CircRef { id }),
{
    let n = ids.len();
    let mut i: usize = 0;
    while i < n
        invariant
            n == ids@.len(),
            0 <= i <= n,
            forall|j: int| 0 <= j < i ==> ids@[j] != id,
        decreases n - i,
    {
        if ids[i] == id {
            return Err(ControlError::new_circ_ref_err(id));
        }
        i = i + 1;
    }
    Ok(())
}

/// A piece of an error message: text, a number held as the bit pattern of a
/// 64-bit float, or an identifier.
#[derive(Debug)]
pub enum Piece {
    Text(String),
    Float(u64),
    Id(usize),
}

/// A piece of an error message as plain values.
pub enum PieceModel {
    Text(Seq<char>),
    Float(u64),
    Id(usize),
}

impl Piece {
    /// The piece as plain values.
    pub open spec fn model(&self) -> PieceModel {
        match self {
            Piece::Text(s) => PieceModel::Text(s@),
            Piece::Float(b) => PieceModel::Float(*b),
            Piece::Id(i) => PieceModel::Id(*i),
        }
    }
}

/// The locations joined by `/`.
pub open spec fn joined(path: Seq<Seq<char>>) -> Seq<char>
    decreases path.len(),
{
    if path.len() == 0 {
        Seq::empty()
    } else if path.len() == 1 {
        path[0]
    } else {
        joined(path.drop_last()) + "/"@ + path.last()
    }
}

/// The pieces of the message that tells of an error of kind `kind` at `control`
/// in `origin`, reached through `path`.
pub open spec fn message(kind: ErrorKind, origin: Seq<char>, control: Seq<char>, path: Seq<Seq<char>>) -> Seq<PieceModel> {
    let full = seq![
        PieceModel::Text(joined(path)),
        PieceModel::Text("/"@),
        PieceModel::Text(origin),
        PieceModel::Text("/"@),
        PieceModel::Text(control),
    ];
    match kind {
        ErrorKind::Range { value, range } => seq![
            PieceModel::Text("The value of "@),
            PieceModel::Text(control),
            PieceModel::Text(" in "@),
            PieceModel::Text(origin),
            PieceModel::Text(" was set to "@),
            PieceModel::Float(value),
            PieceModel::Text(", which is not in range from "@),
            PieceModel::Float(range.0),
            PieceModel::Text(" to "@),
            PieceModel::Float(range.1),
            PieceModel::Text("!\n    full path to value: "@),
        ] + full + seq![PieceModel::Text("/"@), PieceModel::Float(value)],
        ErrorKind::CircRef { id } => seq![
            PieceModel::Text("You tried to set "@),
            PieceModel::Text(control),
            PieceModel::Text(" in "@),
            PieceModel::Text(origin),
            PieceModel::Text(" to "@),
            PieceModel::Id(id),
            PieceModel::Text(" this leeds to a circular Reference between CtrlFunctions, which is not allowed!\n    full path to control: "@),
        ] + full,
        ErrorKind::RangeMismatch { trg_range, src_range } => seq![
            PieceModel::Text("You tried to set "@),
            PieceModel::Text(control),
            PieceModel::Text(" in "@),
            PieceModel::Text(origin),
            PieceModel::Text(" which has a range of ("@),
            PieceModel::Float(trg_range.0),
            PieceModel::Text(", "@),
            PieceModel::Float(trg_range.1),
            PieceModel::Text(") to a control with a range of ("@),
            PieceModel::Float(src_range.0),
            PieceModel::Text(", "@),
            PieceModel::Float(src_range.1),
            PieceModel::Text(")!\n    full path to control: "@),
        ] + full,
        ErrorKind::DoubleId { id } => seq![
            PieceModel::Text("The id : "@),
            PieceModel::Id(id),
            PieceModel::Text(", was encountered twice while creating IdMap"@),
        ],
        ErrorKind::FNotFound { id } => seq![
            PieceModel::Text("The source for "@),
            PieceModel::Text(control),
            PieceModel::Text(" in "@),
            PieceModel::Text(origin),
            PieceModel::Text(" could not find the function with id: "@),
            PieceModel::Id(id),
            PieceModel::Text("!\n    full path to control: "@),
        ] + full,
        ErrorKind::PhantomF => seq![
            PieceModel::Text("The source for "@),
            PieceModel::Text(control),
            PieceModel::Text(" in "@),
            PieceModel::Text(origin),
            PieceModel::Text(" has no assigned CtrlFunction!\n    full path to control: "@),
        ] + full,
    }
}

/// A piece of text.
fn text(s: &str) -> (res: Piece)
    ensures
        res.model() == PieceModel::Text(s@),
{
    Piece::Text(String::from_str(s))
}

impl ControlError {
    /// The locations of the path joined by `/`.
    fn joined_path(&self) -> (res: String)
        ensures
            res@ == joined(self.spec_path()),
    {
        let mut out = String::new();
        let mut i: usize = 0;
        while i < self.path.len()
            invariant
                0 <= i <= self.path@.len(),
                out@ == joined(self.spec_path().take(i as int)),
            decreases self.path@.len() - i,
        {
            proof {
                assert(self.spec_path().take(i + 1).drop_last() == self.spec_path().take(i as int));
            }
            if i > 0 {
                out.append("/");
            }
            out.append(self.path[i].as_str());
            i = i + 1;
        }
        proof {
            assert(self.spec_path().take(self.path@.len() as int) == self.spec_path());
        }
        out
    }

    /// The pieces of the message that tells of the error; numbers are left for
    /// the reader to render.
    pub fn get_string(&self) -> (res: Vec<Piece>)
        ensures
            res@.map_values(|p: Piece| p.model()) == message(
                self.spec_kind(),
                self.spec_origin(),
                self.spec_control(),
                self.spec_path(),
            ),
    {
        let origin = self.origin.as_str();
        let control = self.control.as_str();
        let mut full: Vec<Piece> = Vec::new();
        full.push(Piece::Text(self.joined_path()));
        full.push(text("/"));
        full.push(text(origin));
        full.push(text("/"));
        full.push(text(control));
        let out: Vec<Piece> = match &self.kind {
            ErrorKind::Range { value, range } => {
                let mut v = vec![
                    text("The value of "),
                    text(control),
                    text(" in "),
                    text(origin),
                    text(" was set to "),
                    Piece::Float(*value),
                    text(", which is not in range from "),
                    Piece::Float(range.0),
                    text(" to "),
                    Piece::Float(range.1),
                    text("!\n    full path to value: "),
                ];
                v.append(&mut full);
                v.push(text("/"));
                v.push(Piece::Float(*value));
                v
            },
            ErrorKind::CircRef { id } => {
                let mut v = vec![
                    text("You tried to set "),
                    text(control),
                    text(" in "),
                    text(origin),
                    text(" to "),
                    Piece::Id(*id),
                    text(" this leeds to a circular Reference between CtrlFunctions, which is not allowed!\n    full path to control: "),
                ];
                v.append(&mut full);
                v
            },
            ErrorKind::RangeMismatch { trg_range, src_range } => {
                let mut v = vec![
                    text("You tried to set "),
                    text(control),
                    text(" in "),
                    text(origin),
                    text(" which has a range of ("),
                    Piece::Float(trg_range.0),
                    text(", "),
                    Piece::Float(trg_range.1),
                    text(") to a control with a range of ("),
                    Piece::Float(src_range.0),
                    text(", "),
                    Piece::Float(src_range.1),
                    text(")!\n    full path to control: "),
                ];
                v.append(&mut full);
                v
            },
            ErrorKind::DoubleId { id } => vec![
                text("The id : "),
                Piece::Id(*id),
                text(", was encountered twice while creating IdMap"),
            ],
            ErrorKind::FNotFound { id } => {
                let mut v = vec![
                    text("The source for "),
                    text(control),
                    text(" in "),
                    text(origin),
                    text(" could not find the function with id: "),
                    Piece::Id(*id),
                    text("!\n    full path to control: "),
                ];
                v.append(&mut full);
                v
            },
            ErrorKind::PhantomF => {
                let mut v = vec![
                    text("The source for "),
                    text(control),
                    text(" in "),
                    text(origin),
                    text(" has no assigned CtrlFunction!\n    full path to control: "),
                ];
                v.append(&mut full);
                v
            },
        };
        proof {
            assert(out@.map_values(|p: Piece| p.model()) =~= message(
                self.spec_kind(),
                self.spec_origin(),
                self.spec_control(),
                self.spec_path(),
            ));
        }
        out
    }
}

} // verus!
