//! The XYZ parser: raw text in, a validated molecule or a typed error out.
use crate::coord::{coord_bits, parse_coordinate, Coord};
use crate::count::{count_of_header, is_digit, parse_count};
use crate::error::{decimal_string, ErrorView, ParseError};
use crate::text::{blank, is_blank, lines_of, split_lines, tokenize, tokens_of, trim_of, trimmed};
use vstd::prelude::*;
use vstd::string::StrSliceExecFns;
use vstd::string::StringExecFns;

verus! {

/// One atom: an element label and three Cartesian coordinates.
#[derive(Debug, Clone, PartialEq)]
pub struct Atom {
    pub element: String,
    pub x: Coord,
    pub y: Coord,
    pub z: Coord,
}

/// A parsed molecule: the atoms in file order, and the comment line verbatim.
#[derive(Debug, Clone, PartialEq)]
pub struct Molecule {
    pub atoms: Vec<Atom>,
    pub comment: String,
}

/// The mathematical content of an `Atom`: the element label's characters and
/// the coordinates' IEEE 754 bits.
pub struct AtomView {
    pub element: Seq<char>,
    pub x: u64,
    pub y: u64,
    pub z: u64,
}

/// The mathematical content of a `Molecule`.
pub struct MoleculeView {
    pub atoms: Seq<AtomView>,
    pub comment: Seq<char>,
}

impl View for Atom {
    type V = AtomView;

    open spec fn view(&self) -> AtomView {
        AtomView { element: self.element@, x: self.x.bits, y: self.y.bits, z: self.z.bits }
    }
}

impl View for Molecule {
    type V = MoleculeView;

    open spec fn view(&self) -> MoleculeView {
        MoleculeView {
            atoms: self.atoms@.map_values(|a: Atom| a@),
            comment: self.comment@,
        }
    }
}

/// The element-label heuristic: a token whose first character is a digit, a
/// sign, or a decimal point is a number standing where an element label
/// should, not a label.
pub open spec fn bad_element(t: Seq<char>) -> bool {
    t.len() == 0 || is_digit(t[0]) || t[0] == '-' || t[0] == '+' || t[0] == '.'
}

/// What one atom line yields: its element label and coordinate bits, or the
/// first error in left-to-right column order. `line_num` is the 1-indexed
/// physical line number.
pub open spec fn atom_line_spec(line: Seq<char>, line_num: int) -> Result<AtomView, ErrorView> {
    if blank(line) {
        Err(ErrorView::InvalidAtomLine(line_num))
    } else {
        let toks = tokens_of(line);
        if toks.len() < 4 {
            Err(ErrorView::InvalidAtomLine(line_num))
        } else if bad_element(toks[0]) {
            Err(ErrorView::InvalidAtomLine(line_num))
        } else {
            match coord_bits(toks[1]) {
                None => Err(ErrorView::InvalidCoordinate(line_num)),
                Some(x) => match coord_bits(toks[2]) {
                    None => Err(ErrorView::InvalidCoordinate(line_num)),
                    Some(y) => match coord_bits(toks[3]) {
                        None => Err(ErrorView::InvalidCoordinate(line_num)),
                        Some(z) => Ok(AtomView { element: toks[0], x, y, z }),
                    },
                },
            }
        }
    }
}

/// What the atom section yields from atom index `i` on, `n` being the
/// declared count: the remaining atoms, or the first error. Atom `k` stands
/// on line `k + 3`.
pub open spec fn atoms_from(lines: Seq<Seq<char>>, i: int, n: int) -> Result<
    Seq<AtomView>,
    ErrorView,
>
    decreases n - i,
{
    if i >= n {
        Ok(seq![])
    } else if 2 + i >= lines.len() {
        Err(ErrorView::AtomCountMismatch { expected: n, actual: i })
    } else {
        match atom_line_spec(lines[2 + i], i + 3) {
            Err(e) => Err(e),
            Ok(a) => match atoms_from(lines, i + 1, n) {
                Err(e) => Err(e),
                Ok(rest) => Ok(seq![a] + rest),
            },
        }
    }
}

/// How many lines from index `i` on are not blank.
pub open spec fn nonblank_from(lines: Seq<Seq<char>>, i: int) -> int
    decreases lines.len() - i,
{
    if i < 0 || i >= lines.len() {
        0
    } else {
        (if !blank(lines[i]) {
            1int
        } else {
            0int
        }) + nonblank_from(lines, i + 1)
    }
}

/// The atom section and the trailing-content check, once the header has
/// yielded the count `n`: the declared number of atom lines must parse, and
/// every line after them must be blank.
pub open spec fn atoms_stage(lines: Seq<Seq<char>>, n: int) -> Result<MoleculeView, ErrorView> {
    match atoms_from(lines, 0, n) {
        Err(e) => Err(e),
        Ok(atoms) => {
            let extra = nonblank_from(lines, 2 + n);
            if extra > 0 {
                Err(ErrorView::AtomCountMismatch { expected: n, actual: n + extra })
            } else {
                Ok(MoleculeView { atoms, comment: lines[1] })
            }
        },
    }
}

/// The whole parse, phase by phase: emptiness check, header, comment, the
/// declared number of atom lines, and the trailing-content check. This is
/// the contract `parse_xyz_str` is held to.
pub open spec fn parse_spec(input: Seq<char>) -> Result<MoleculeView, ErrorView> {
    let lines = lines_of(input);
    if lines.len() == 0 || (forall|i: int| 0 <= i < lines.len() ==> blank(lines[i])) {
        Err(ErrorView::EmptyFile)
    } else {
        let hdr = trim_of(lines[0]);
        if hdr.len() == 0 {
            Err(ErrorView::EmptyFile)
        } else {
            match count_of_header(hdr) {
                None => Err(ErrorView::InvalidAtomCount),
                Some(n) => {
                    if lines.len() < 2 {
                        Err(ErrorView::MissingCommentLine)
                    } else {
                        atoms_stage(lines, n)
                    }
                },
            }
        }
    }
}

/// Parsing the first `i` atom lines successfully commits the whole atom
/// section to whatever the rest yields.
pub proof fn lemma_atoms_from_split(lines: Seq<Seq<char>>, i: int, n: int, vs: Seq<AtomView>)
    requires
        0 <= i <= n,
        vs.len() == i,
        forall|k: int|
            0 <= k < i ==> 2 + k < lines.len() && #[trigger] atom_line_spec(lines[2 + k], k + 3)
                == Ok::<AtomView, ErrorView>(vs[k]),
    ensures
        atoms_from(lines, 0, n) == match atoms_from(lines, i, n) {
            Ok(rest) => Ok::<Seq<AtomView>, ErrorView>(vs + rest),
            Err(e) => Err::<Seq<AtomView>, ErrorView>(e),
        },
    decreases i,
{
    if i == 0 {
        match atoms_from(lines, 0, n) {
            Ok(rest) => {
                assert(vs + rest =~= rest);
            },
            Err(_) => {},
        }
    } else {
        let pre = vs.subrange(0, i - 1);
        assert forall|k: int|
            0 <= k < i - 1 implies 2 + k < lines.len() && atom_line_spec(lines[2 + k], k + 3)
            == Ok::<AtomView, ErrorView>(pre[k]) by {
            assert(2 + k < lines.len() && atom_line_spec(lines[2 + k], k + 3) == Ok::<
                AtomView,
                ErrorView,
            >(vs[k]));
            assert(pre[k] == vs[k]);
        }
        lemma_atoms_from_split(lines, i - 1, n, pre);
        assert(atom_line_spec(lines[2 + (i - 1)], (i - 1) + 3) == Ok::<AtomView, ErrorView>(
            vs[i - 1],
        ));
        match atoms_from(lines, i, n) {
            Ok(rest) => {
                assert(atoms_from(lines, i - 1, n) == Ok::<Seq<AtomView>, ErrorView>(
                    seq![vs[i - 1]] + rest,
                ));
                assert(pre + (seq![vs[i - 1]] + rest) =~= vs + rest);
            },
            Err(e) => {
                assert(atoms_from(lines, i - 1, n) == Err::<Seq<AtomView>, ErrorView>(e));
            },
        }
    }
}

/// Parses one atom line: an element label and at least three coordinates,
/// extra trailing tokens ignored.
#[verifier::loop_isolation(false)]
pub fn parse_atom_line(line: &str, line_num: usize) -> (r: Result<Atom, ParseError>)
    ensures
        match r {
            Ok(a) => atom_line_spec(line@, line_num as int) == Ok::<AtomView, ErrorView>(a@),
            Err(e) => atom_line_spec(line@, line_num as int) == Err::<AtomView, ErrorView>(e@),
        },
{
    if is_blank(line) {
        let m = String::from_str("empty line in atom section");
        return Err(ParseError::InvalidAtomLine(line_num, m));
    }
    let toks = tokenize(line);
    let ghost tv = tokens_of(line@);
    if toks.len() < 4 {
        let mut m = String::from_str("expected at least 4 fields, found ");
        let cnt = decimal_string(toks.len());
        m.append(cnt.as_str());
        return Err(ParseError::InvalidAtomLine(line_num, m));
    }
    let element = &toks[0];
    proof {
        assert(element@ == tv[0]);
    }
    let looks_numeric = if element.as_str().is_empty() {
        true
    } else {
        let c0 = element.as_str().get_char(0);
        assert(c0 == tv[0][0]);
        ('0' <= c0 && c0 <= '9') || c0 == '-' || c0 == '+' || c0 == '.'
    };
    if looks_numeric {
        let mut m = String::from_str("element symbol '");
        m.append(element.as_str());
        m.append("' appears to be a number");
        return Err(ParseError::InvalidAtomLine(line_num, m));
    }
    assert(!bad_element(tv[0]));
    proof {
        assert(toks[1]@ == tv[1]);
        assert(toks[2]@ == tv[2]);
        assert(toks[3]@ == tv[3]);
    }
    let x = match parse_coordinate(toks[1].as_str(), line_num) {
        Ok(c) => c,
        Err(e) => {
            return Err(e);
        },
    };
    let y = match parse_coordinate(toks[2].as_str(), line_num) {
        Ok(c) => c,
        Err(e) => {
            return Err(e);
        },
    };
    let z = match parse_coordinate(toks[3].as_str(), line_num) {
        Ok(c) => c,
        Err(e) => {
            return Err(e);
        },
    };
    let a = Atom { element: element.clone(), x, y, z };
    Ok(a)
}

/// Parses XYZ content held in memory: the declared atom count, the comment
/// line, exactly that many atom lines, and nothing but blank lines after
/// them. The result is pinned, case by case, to `parse_spec` over the
/// input's characters.
#[verifier::loop_isolation(false)]
pub fn parse_xyz_str(content: &str) -> (r: Result<Molecule, ParseError>)
    ensures
        match r {
            Ok(m) => parse_spec(content@) == Ok::<MoleculeView, ErrorView>(m@),
            Err(e) => parse_spec(content@) == Err::<MoleculeView, ErrorView>(e@),
        },
{
    let lines = split_lines(content);
    let ghost lv = lines.deep_view();
    let mut all_blank = true;
    let mut i: usize = 0;
    while i < lines.len()
        invariant
            i <= lines.len(),
            all_blank <==> (forall|k: int| 0 <= k < i ==> blank(lv[k])),
        decreases lines.len() - i,
    {
        let b = is_blank(lines[i].as_str());
        proof {
            assert(lines@[i as int]@ == lv[i as int]);
        }
        all_blank = all_blank && b;
        i = i + 1;
    }
    if lines.len() == 0 || all_blank {
        return Err(ParseError::EmptyFile);
    }
    let hdr = trimmed(lines[0].as_str());
    proof {
        assert(lines@[0]@ == lv[0]);
    }
    if hdr.as_str().is_empty() {
        return Err(ParseError::EmptyFile);
    }
    let count = match parse_count(hdr.as_str()) {
        Some(n) => n,
        None => {
            let mut m = String::from_str("'");
            m.append(hdr.as_str());
            m.append("' is not a valid atom count");
            return Err(ParseError::InvalidAtomCount(m));
        },
    };
    if lines.len() < 2 {
        return Err(ParseError::MissingCommentLine);
    }
    let comment = lines[1].clone();
    proof {
        assert(lines@[1]@ == lv[1]);
    }
    let mut atoms: Vec<Atom> = Vec::new();
    let mut i: usize = 0;
    while i < count
        invariant
            i <= count,
            atoms@.len() == i,
            i > 0 ==> 2 + i <= lv.len(),
            forall|k: int|
                0 <= k < i ==> #[trigger] atom_line_spec(lv[2 + k], k + 3) == Ok::<
                    AtomView,
                    ErrorView,
                >(atoms@[k]@),
        decreases count - i,
    {
        if i >= lines.len() - 2 {
            proof {
                let vs = atoms@.map_values(|a: Atom| a@);
                assert forall|k: int|
                    0 <= k < i implies 2 + k < lv.len() && atom_line_spec(lv[2 + k], k + 3) == Ok::<
                    AtomView,
                    ErrorView,
                >(vs[k]) by {
                    assert(atom_line_spec(lv[2 + k], k + 3) == Ok::<AtomView, ErrorView>(
                        atoms@[k]@,
                    ));
                    assert(vs[k] == atoms@[k]@);
                }
                lemma_atoms_from_split(lv, i as int, count as int, vs);
            }
            return Err(ParseError::AtomCountMismatch { expected: count, actual: i });
        }
        let line = &lines[2 + i];
        proof {
            assert(lines@[2 + i as int]@ == lv[2 + i as int]);
        }
        let a = match parse_atom_line(line.as_str(), i + 3) {
            Ok(a) => a,
            Err(e) => {
                proof {
                    let vs = atoms@.map_values(|a: Atom| a@);
                    assert forall|k: int|
                        0 <= k < i implies 2 + k < lv.len() && atom_line_spec(lv[2 + k], k + 3)
                        == Ok::<AtomView, ErrorView>(vs[k]) by {
                        assert(atom_line_spec(lv[2 + k], k + 3) == Ok::<AtomView, ErrorView>(
                            atoms@[k]@,
                        ));
                        assert(vs[k] == atoms@[k]@);
                    }
                    lemma_atoms_from_split(lv, i as int, count as int, vs);
                }
                return Err(e);
            },
        };
        atoms.push(a);
        proof {
            assert(atoms@[i as int]@ == a@);
        }
        i = i + 1;
    }
    proof {
        let vs = atoms@.map_values(|a: Atom| a@);
        assert forall|k: int|
            0 <= k < count implies 2 + k < lv.len() && atom_line_spec(lv[2 + k], k + 3) == Ok::<
            AtomView,
            ErrorView,
        >(vs[k]) by {
            assert(atom_line_spec(lv[2 + k], k + 3) == Ok::<AtomView, ErrorView>(atoms@[k]@));
            assert(vs[k] == atoms@[k]@);
        }
        lemma_atoms_from_split(lv, count as int, count as int, vs);
        assert(atoms_from(lv, count as int, count as int) == Ok::<Seq<AtomView>, ErrorView>(
            Seq::<AtomView>::empty(),
        ));
        assert(vs + Seq::<AtomView>::empty() =~= vs);
        if count > 0 {
            assert(2 + (count - 1) < lv.len());
        }
        assert(lv.len() == lines@.len());
    }
    assert(2 + count <= lines.len());
    let mut extra: usize = 0;
    let start: usize = 2 + count;
    let mut j: usize = start;
    while j < lines.len()
        invariant
            start <= j <= lines.len(),
            extra <= j - start,
            nonblank_from(lv, start as int) == extra + nonblank_from(lv, j as int),
        decreases lines.len() - j,
    {
        let b = is_blank(lines[j].as_str());
        proof {
            assert(lines@[j as int]@ == lv[j as int]);
        }
        if !b {
            extra = extra + 1;
        }
        j = j + 1;
    }
    assert(nonblank_from(lv, lines.len() as int) == 0);
    if extra > 0 {
        return Err(ParseError::AtomCountMismatch { expected: count, actual: count + extra });
    }
    let m = Molecule { atoms, comment };
    proof {
        assert(m@.atoms =~= atoms@.map_values(|a: Atom| a@));
    }
    Ok(m)
}

} // verus!
