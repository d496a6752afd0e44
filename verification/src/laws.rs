//! General properties of the parser, stated over `parse_spec` and proved
//! once and for all. `parse_xyz_str` is pinned to `parse_spec`, so each law
//! carries over to the executable parser.
use crate::coord::{coord_bits, f64_bits_of, finite_bits, special_coord_lit};
use crate::count::count_of_header;
use crate::error::ErrorView;
use crate::parser::{
    atom_line_spec, atoms_from, atoms_stage, bad_element, nonblank_from, parse_spec, AtomView,
    MoleculeView,
};
use crate::text::{blank, lemma_blank_iff_no_tokens, lemma_trim_empty_iff_blank, lines_of,
    tokens_of, trim_of};
use vstd::prelude::*;

verus! {

/// A header that yields a count is nonempty text, and the count is a
/// machine-representable non-negative number.
proof fn lemma_count_header_nonempty(h: Seq<char>, n: int)
    requires
        count_of_header(h) == Some(n),
    ensures
        h.len() > 0,
        0 <= n <= usize::MAX,
{
}

/// Once the first line yields a count and a second line exists, the parse
/// is decided by the atom section alone.
proof fn lemma_header_reaches_atoms(input: Seq<char>, n: int)
    requires
        lines_of(input).len() >= 2,
        count_of_header(trim_of(lines_of(input)[0])) == Some(n),
    ensures
        0 <= n,
        parse_spec(input) == atoms_stage(lines_of(input), n),
{
    let lines = lines_of(input);
    lemma_count_header_nonempty(trim_of(lines[0]), n);
    lemma_trim_empty_iff_blank(lines[0]);
    assert(!blank(lines[0]));
    assert(!(forall|i: int| 0 <= i < lines.len() ==> blank(lines[i]))) by {
        assert(0 <= 0 < lines.len() && !blank(lines[0]));
    }
}

/// When every atom line from index `i` on parses, the atom section yields
/// them all, in file order.
proof fn lemma_atoms_from_all_ok(lines: Seq<Seq<char>>, i: int, n: int)
    requires
        0 <= i <= n,
        lines.len() >= 2 + n,
        forall|k: int| i <= k < n ==> (#[trigger] atom_line_spec(lines[2 + k], k + 3)) is Ok,
    ensures
        atoms_from(lines, i, n) matches Ok(atoms) && atoms.len() == n - i && (forall|k: int|
            i <= k < n ==> #[trigger] atom_line_spec(lines[2 + k], k + 3) == Ok::<
                AtomView,
                ErrorView,
            >(atoms[k - i])),
    decreases n - i,
{
    if i >= n {
    } else {
        lemma_atoms_from_all_ok(lines, i + 1, n);
    }
}

/// A well-formed file parses: a header yielding `n`, a comment line, exactly
/// `n` atom lines that each parse, and nothing after them. The molecule has
/// exactly `n` atoms, in file order, and the comment is the second line
/// verbatim.
pub proof fn lemma_well_formed_file_parses(input: Seq<char>, n: int)
    requires
        count_of_header(trim_of(lines_of(input)[0])) == Some(n),
        lines_of(input).len() == 2 + n,
        forall|k: int| 0 <= k < n ==> (#[trigger] atom_line_spec(lines_of(input)[2 + k], k + 3))
            is Ok,
    ensures
        parse_spec(input) matches Ok(m) && m.atoms.len() == n && m.comment == lines_of(input)[1]
            && (forall|k: int|
            0 <= k < n ==> #[trigger] atom_line_spec(lines_of(input)[2 + k], k + 3) == Ok::<
                AtomView,
                ErrorView,
            >(m.atoms[k])),
{
    let lines = lines_of(input);
    lemma_count_header_nonempty(trim_of(lines[0]), n);
    lemma_header_reaches_atoms(input, n);
    lemma_atoms_from_all_ok(lines, 0, n);
    assert(nonblank_from(lines, 2 + n) == 0);
}

/// Whitespace invariance: two atom lines with the same tokens parse
/// identically, however the tokens are laid out on the line.
pub proof fn lemma_whitespace_invariance(a: Seq<char>, b: Seq<char>, line_num: int)
    requires
        tokens_of(a) == tokens_of(b),
    ensures
        atom_line_spec(a, line_num) == atom_line_spec(b, line_num),
{
    lemma_blank_iff_no_tokens(a);
    lemma_blank_iff_no_tokens(b);
}

/// Extra trailing tokens are ignored: two atom lines that agree on their
/// first four tokens parse identically, whatever follows.
pub proof fn lemma_extra_tokens_ignored(a: Seq<char>, b: Seq<char>, line_num: int)
    requires
        tokens_of(a).len() >= 4,
        tokens_of(b).len() >= 4,
        forall|k: int| 0 <= k < 4 ==> tokens_of(a)[k] == tokens_of(b)[k],
    ensures
        atom_line_spec(a, line_num) == atom_line_spec(b, line_num),
{
    lemma_blank_iff_no_tokens(a);
    lemma_blank_iff_no_tokens(b);
    assert(tokens_of(a)[0] == tokens_of(b)[0]);
    assert(tokens_of(a)[1] == tokens_of(b)[1]);
    assert(tokens_of(a)[2] == tokens_of(b)[2]);
    assert(tokens_of(a)[3] == tokens_of(b)[3]);
}

/// No NaN or infinity ever passes as a coordinate: not the rejected textual
/// spellings, and not a token whose numeric parse comes out non-finite. An
/// accepted coordinate is always finite.
pub proof fn lemma_nan_inf_never_accepted(t: Seq<char>)
    ensures
        special_coord_lit(t) ==> coord_bits(t) is None,
        (f64_bits_of(t) matches Some(b) && !finite_bits(b)) ==> coord_bits(t) is None,
        coord_bits(t) matches Some(b) ==> finite_bits(b),
{
}

/// A rejected coordinate token on an otherwise well-formed atom line yields
/// `InvalidCoordinate` with that line's number.
pub proof fn lemma_bad_coordinate_rejected(line: Seq<char>, line_num: int)
    requires
        tokens_of(line).len() >= 4,
        !bad_element(tokens_of(line)[0]),
        coord_bits(tokens_of(line)[1]) is None || coord_bits(tokens_of(line)[2]) is None
            || coord_bits(tokens_of(line)[3]) is None,
    ensures
        atom_line_spec(line, line_num) == Err::<AtomView, ErrorView>(
            ErrorView::InvalidCoordinate(line_num),
        ),
{
    lemma_blank_iff_no_tokens(line);
}

/// Every coordinate of every atom the atom section yields is finite.
proof fn lemma_atoms_from_finite(lines: Seq<Seq<char>>, i: int, n: int)
    ensures
        atoms_from(lines, i, n) is Ok ==> forall|k: int|
            0 <= k < atoms_from(lines, i, n)->Ok_0.len() ==> finite_bits(
                #[trigger] atoms_from(lines, i, n)->Ok_0[k].x,
            ) && finite_bits(atoms_from(lines, i, n)->Ok_0[k].y) && finite_bits(
                atoms_from(lines, i, n)->Ok_0[k].z,
            ),
    decreases n - i,
{
    if i >= n {
    } else if 2 + i >= lines.len() {
    } else {
        lemma_atoms_from_finite(lines, i + 1, n);
        if atoms_from(lines, i, n) is Ok {
            let whole = atoms_from(lines, i, n)->Ok_0;
            let a = atom_line_spec(lines[2 + i], i + 3)->Ok_0;
            let rest = atoms_from(lines, i + 1, n)->Ok_0;
            assert(atoms_from(lines, i + 1, n) is Ok);
            assert(whole == seq![a] + rest);
            let toks = tokens_of(lines[2 + i]);
            lemma_nan_inf_never_accepted(toks[1]);
            lemma_nan_inf_never_accepted(toks[2]);
            lemma_nan_inf_never_accepted(toks[3]);
            assert(coord_bits(toks[1]) == Some(a.x));
            assert(coord_bits(toks[2]) == Some(a.y));
            assert(coord_bits(toks[3]) == Some(a.z));
            assert forall|k: int|
                0 <= k < atoms_from(lines, i, n)->Ok_0.len() implies finite_bits(
                #[trigger] atoms_from(lines, i, n)->Ok_0[k].x,
            ) && finite_bits(atoms_from(lines, i, n)->Ok_0[k].y) && finite_bits(
                atoms_from(lines, i, n)->Ok_0[k].z,
            ) by {
                if k == 0 {
                    assert(whole[0] == a);
                } else {
                    assert(whole[k] == rest[k - 1]);
                    assert(finite_bits(atoms_from(lines, i + 1, n)->Ok_0[k - 1].x) && finite_bits(
                        atoms_from(lines, i + 1, n)->Ok_0[k - 1].y,
                    ) && finite_bits(atoms_from(lines, i + 1, n)->Ok_0[k - 1].z));
                }
            }
        }
    }
}

/// A successful parse never lets a NaN or an infinity through: every
/// coordinate of the molecule is finite.
pub proof fn lemma_parsed_molecule_finite(input: Seq<char>)
    ensures
        parse_spec(input) matches Ok(m) ==> forall|k: int|
            0 <= k < m.atoms.len() ==> finite_bits(#[trigger] m.atoms[k].x) && finite_bits(
                m.atoms[k].y,
            ) && finite_bits(m.atoms[k].z),
{
    let lines = lines_of(input);
    if parse_spec(input) is Ok {
        let m = parse_spec(input)->Ok_0;
        let hdr = trim_of(lines[0]);
        match count_of_header(hdr) {
            Some(n) => {
                lemma_atoms_from_finite(lines, 0, n);
                if atoms_from(lines, 0, n) is Ok {
                    assert(m.atoms == atoms_from(lines, 0, n)->Ok_0);
                    assert forall|k: int|
                        0 <= k < m.atoms.len() implies finite_bits(#[trigger] m.atoms[k].x)
                        && finite_bits(m.atoms[k].y) && finite_bits(m.atoms[k].z) by {
                        assert(finite_bits(atoms_from(lines, 0, n)->Ok_0[k].x) && finite_bits(
                            atoms_from(lines, 0, n)->Ok_0[k].y,
                        ) && finite_bits(atoms_from(lines, 0, n)->Ok_0[k].z));
                    }
                } else {
                    assert(false);
                }
            },
            None => {
                assert(false);
            },
        }
    }
}

/// The atom section, when it succeeds, yields one atom per declared index.
proof fn lemma_atoms_from_len(lines: Seq<Seq<char>>, i: int, n: int)
    requires
        0 <= i <= n,
    ensures
        atoms_from(lines, i, n) is Ok ==> atoms_from(lines, i, n)->Ok_0.len() == n - i,
    decreases n - i,
{
    if i >= n {
    } else if 2 + i >= lines.len() {
    } else {
        lemma_atoms_from_len(lines, i + 1, n);
        if atoms_from(lines, i, n) is Ok {
            let a = atom_line_spec(lines[2 + i], i + 3)->Ok_0;
            let rest = atoms_from(lines, i + 1, n)->Ok_0;
            assert(atoms_from(lines, i + 1, n) is Ok);
            assert(atoms_from(lines, i, n)->Ok_0 == seq![a] + rest);
        }
    }
}

/// A molecule with a count other than the header's declared count is never
/// constructed: whenever the parse succeeds, the number of atoms equals the
/// count the header declares.
pub proof fn lemma_molecule_matches_declared_count(input: Seq<char>)
    ensures
        parse_spec(input) matches Ok(m) ==> count_of_header(trim_of(lines_of(input)[0])) == Some(
            m.atoms.len() as int,
        ),
{
    if parse_spec(input) is Ok {
        let lines = lines_of(input);
        match count_of_header(trim_of(lines[0])) {
            Some(n) => {
                lemma_atoms_from_len(lines, 0, n);
            },
            None => {
                assert(false);
            },
        }
    }
}

/// The element heuristic: on a line with four or more tokens whose
/// coordinate tokens all parse, the line is accepted exactly when the first
/// character of its element token is not a digit, a sign, or a decimal
/// point; the label is taken verbatim.
pub proof fn lemma_element_heuristic(line: Seq<char>, line_num: int)
    requires
        tokens_of(line).len() >= 4,
        coord_bits(tokens_of(line)[1]) is Some,
        coord_bits(tokens_of(line)[2]) is Some,
        coord_bits(tokens_of(line)[3]) is Some,
    ensures
        atom_line_spec(line, line_num) is Ok <==> !bad_element(tokens_of(line)[0]),
        atom_line_spec(line, line_num) matches Ok(a) ==> a.element == tokens_of(line)[0],
        bad_element(tokens_of(line)[0]) ==> atom_line_spec(line, line_num) == Err::<
            AtomView,
            ErrorView,
        >(ErrorView::InvalidAtomLine(line_num)),
{
    lemma_blank_iff_no_tokens(line);
}

/// When the file has fewer atom lines than the header declares and every
/// present atom line parses, the atom section runs out at the end of the
/// file.
proof fn lemma_atoms_from_runs_out(lines: Seq<Seq<char>>, i: int, n: int)
    requires
        0 <= i <= lines.len() - 2,
        lines.len() - 2 < n,
        forall|k: int| i <= k < lines.len() - 2 ==> (#[trigger] atom_line_spec(
            lines[2 + k],
            k + 3,
        )) is Ok,
    ensures
        atoms_from(lines, i, n) == Err::<Seq<AtomView>, ErrorView>(
            ErrorView::AtomCountMismatch { expected: n, actual: lines.len() - 2 },
        ),
    decreases n - i,
{
    if 2 + i >= lines.len() {
    } else {
        lemma_atoms_from_runs_out(lines, i + 1, n);
    }
}

/// Too few atom lines: a header declaring `n`, with every present atom line
/// well formed but fewer than `n` of them, fails with `AtomCountMismatch`
/// whose `expected` is the declared count and whose `actual` is the number
/// of atom lines present.
pub proof fn lemma_count_mismatch_fewer(input: Seq<char>, n: int)
    requires
        lines_of(input).len() >= 2,
        count_of_header(trim_of(lines_of(input)[0])) == Some(n),
        lines_of(input).len() - 2 < n,
        forall|k: int| 0 <= k < lines_of(input).len() - 2 ==> (#[trigger] atom_line_spec(
            lines_of(input)[2 + k],
            k + 3,
        )) is Ok,
    ensures
        parse_spec(input) == Err::<MoleculeView, ErrorView>(
            ErrorView::AtomCountMismatch { expected: n, actual: lines_of(input).len() - 2 },
        ),
{
    lemma_header_reaches_atoms(input, n);
    lemma_atoms_from_runs_out(lines_of(input), 0, n);
}

/// Too many atom lines: a header declaring `n`, with `n` well-formed atom
/// lines followed by at least one non-blank line, fails with
/// `AtomCountMismatch` whose `expected` is the declared count and whose
/// `actual` counts every non-blank atom line present.
pub proof fn lemma_count_mismatch_extra(input: Seq<char>, n: int)
    requires
        count_of_header(trim_of(lines_of(input)[0])) == Some(n),
        lines_of(input).len() >= 2 + n,
        forall|k: int| 0 <= k < n ==> (#[trigger] atom_line_spec(lines_of(input)[2 + k], k + 3))
            is Ok,
        nonblank_from(lines_of(input), 2 + n) > 0,
    ensures
        parse_spec(input) == Err::<MoleculeView, ErrorView>(
            ErrorView::AtomCountMismatch {
                expected: n,
                actual: n + nonblank_from(lines_of(input), 2 + n),
            },
        ),
{
    lemma_count_header_nonempty(trim_of(lines_of(input)[0]), n);
    lemma_header_reaches_atoms(input, n);
    lemma_atoms_from_all_ok(lines_of(input), 0, n);
}

} // verus!
