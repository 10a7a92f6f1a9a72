//! Unit tests of the scalar, vector and filtering layers.
use diffsol::linear_solver::LuSolver;
use diffsol::ode_solver::problem::OdeSolverSolution;
use diffsol::op::constant_closure::ConstantClosure;
use diffsol::op::unit::UnitCallable;
use diffsol::op::{ConstantOp, LinearOp, NonLinearOp, Op, OpStatistics};
use diffsol::matrix::{Matrix, SparsityPattern};
use diffsol::scalar::Fixed;
use diffsol::vector::{Indices, Vector};
use diffsol::SolverError;

const ONE: i64 = 1073741824;

#[test]
fn test_fixed_arithmetic() {
    let a = Fixed::from_int(3);
    let b = Fixed::from_int(4);
    assert_eq!(a.add(b).raw(), 7 * ONE);
    assert_eq!(a.sub(b).raw(), -ONE);
    assert_eq!(a.mul(b).raw(), 12 * ONE);
    assert_eq!(Fixed::from_int(12).div(b).raw(), 3 * ONE);
    assert_eq!(Fixed::from_int(-3).abs().raw(), 3 * ONE);
    assert_eq!(Fixed::from_int(9).sqrt().raw(), 3 * ONE);
    assert_eq!(Fixed::from_ratio(1, 2).raw(), ONE / 2);
    assert_eq!(Fixed::from_int(2).pow(10).raw(), 1024 * ONE);
    // division by zero saturates
    assert_eq!(Fixed::one().div(Fixed::zero()).raw(), i64::MAX);
}

#[test]
fn test_vector_norm_exact() {
    let v = Vector::from_vec(vec![Fixed::from_int(3), Fixed::from_int(4)]);
    assert_eq!(v.norm().raw(), 5 * ONE);
}

#[test]
fn test_vector_axpy() {
    // y <- 2 * x + 3 * y
    let x = Vector::from_vec(vec![Fixed::from_int(1), Fixed::from_int(2)]);
    let mut y = Vector::from_vec(vec![Fixed::from_int(10), Fixed::from_int(20)]);
    y.axpy(Fixed::from_int(2), &x, Fixed::from_int(3));
    assert_eq!(y.get(0).raw(), 32 * ONE);
    assert_eq!(y.get(1).raw(), 64 * ONE);
}

#[test]
fn test_filter_scatter_identity() {
    let v = Vector::from_vec(vec![
        Fixed::from_int(10),
        Fixed::from_int(20),
        Fixed::from_int(30),
    ]);
    let idx = Indices::from_vec(vec![0, 2]);
    let picked = v.filter(&idx);
    assert_eq!(picked.len(), 2);
    assert_eq!(picked.get(0).raw(), 10 * ONE);
    assert_eq!(picked.get(1).raw(), 30 * ONE);
    let mut w = v.clone();
    w.scatter_from(&picked, &idx);
    for i in 0..3 {
        assert_eq!(w.get(i).raw(), v.get(i).raw());
    }
}

#[test]
fn test_filter_indices_finds_zeros() {
    let v = Vector::from_vec(vec![Fixed::zero(), Fixed::from_int(5), Fixed::zero()]);
    let idx = v.filter_indices(Fixed::zero());
    assert_eq!(idx.len(), 2);
    assert_eq!(idx.get(0), 0);
    assert_eq!(idx.get(1), 2);
}

#[test]
fn test_sparsity_pattern() {
    let p = SparsityPattern::try_from_indices(2, 2, vec![(0, 0), (1, 1)]).unwrap();
    assert!(p.contains(0, 0));
    assert!(p.contains(1, 1));
    assert!(!p.contains(0, 1));
    let bad = SparsityPattern::try_from_indices(2, 2, vec![(0, 3)]);
    assert_eq!(bad.err().unwrap(), SolverError::IndexOutOfBounds);
    let unsorted = SparsityPattern::try_from_indices(2, 2, vec![(1, 1), (0, 0)]);
    assert_eq!(unsorted.err().unwrap(), SolverError::DimensionMismatch);
}

#[test]
fn test_matrix_scale_add_assign() {
    // self <- x + beta * y
    let mut m = Matrix::zeros(2, 2);
    let mut x = Matrix::zeros(2, 2);
    let mut y = Matrix::zeros(2, 2);
    x.set(0, 0, Fixed::from_int(1));
    x.set(1, 1, Fixed::from_int(2));
    y.set(0, 0, Fixed::from_int(10));
    y.set(1, 0, Fixed::from_int(20));
    m.scale_add_and_assign(&x, Fixed::from_int(3), &y);
    assert_eq!(m.get(0, 0).raw(), 31 * ONE);
    assert_eq!(m.get(1, 0).raw(), 60 * ONE);
    assert_eq!(m.get(1, 1).raw(), 2 * ONE);
    assert_eq!(m.get(0, 1).raw(), 0);
}

#[test]
fn test_matrix_gemm() {
    // C <- 1 * A * B + 0 * C with A = [[1, 2], [3, 4]], B = [[5, 6], [7, 8]]
    let mut a = Matrix::zeros(2, 2);
    a.set(0, 0, Fixed::from_int(1));
    a.set(0, 1, Fixed::from_int(2));
    a.set(1, 0, Fixed::from_int(3));
    a.set(1, 1, Fixed::from_int(4));
    let mut b = Matrix::zeros(2, 2);
    b.set(0, 0, Fixed::from_int(5));
    b.set(0, 1, Fixed::from_int(6));
    b.set(1, 0, Fixed::from_int(7));
    b.set(1, 1, Fixed::from_int(8));
    let mut c = Matrix::zeros(2, 2);
    c.gemm(Fixed::one(), &a, &b, Fixed::zero());
    assert_eq!(c.get(0, 0).raw(), 19 * ONE);
    assert_eq!(c.get(0, 1).raw(), 22 * ONE);
    assert_eq!(c.get(1, 0).raw(), 43 * ONE);
    assert_eq!(c.get(1, 1).raw(), 50 * ONE);
}

#[test]
fn test_matrix_diagonal_roundtrip() {
    let d = Vector::from_vec(vec![Fixed::from_int(7), Fixed::from_int(-2)]);
    let m = Matrix::from_diagonal(&d);
    let d2 = m.diagonal();
    assert_eq!(d2.get(0).raw(), 7 * ONE);
    assert_eq!(d2.get(1).raw(), -2 * ONE);
    assert_eq!(m.get(0, 1).raw(), 0);
}

#[test]
fn test_lu_solves_integer_system() {
    // A = [[2, 1], [1, 3]], b = (5, 10): x = (1, 3)
    let mut a = Matrix::zeros(2, 2);
    a.set(0, 0, Fixed::from_int(2));
    a.set(0, 1, Fixed::from_int(1));
    a.set(1, 0, Fixed::from_int(1));
    a.set(1, 1, Fixed::from_int(3));
    let mut lu = LuSolver::new();
    lu.set_matrix(&a).unwrap();
    let mut b = Vector::from_vec(vec![Fixed::from_int(5), Fixed::from_int(10)]);
    lu.solve_in_place(&mut b).unwrap();
    let tol = Fixed::from_ratio(1, 1000000);
    assert!(b.get(0).sub(Fixed::from_int(1)).abs().le(tol));
    assert!(b.get(1).sub(Fixed::from_int(3)).abs().le(tol));
}

#[test]
fn test_lu_singular() {
    let a = Matrix::zeros(2, 2);
    let mut lu = LuSolver::new();
    assert_eq!(lu.set_matrix(&a).err().unwrap(), SolverError::SingularMatrix);
}

#[test]
fn test_statistics_increments() {
    let mut s = OpStatistics::new();
    assert_eq!(s.number_of_calls, 0);
    assert_eq!(s.number_of_jac_muls, 0);
    assert_eq!(s.number_of_matrix_evals, 0);
    s.increment_call();
    s.increment_call();
    s.increment_jac_mul();
    s.increment_matrix();
    assert_eq!(s.number_of_calls, 2);
    assert_eq!(s.number_of_jac_muls, 1);
    assert_eq!(s.number_of_matrix_evals, 1);
}

#[test]
fn test_unit_callable_identity() {
    let mut u = UnitCallable::new(2);
    assert_eq!(u.nstates(), 2);
    assert_eq!(u.nout(), 2);
    assert_eq!(u.nparams(), 0);
    let x = Vector::from_vec(vec![Fixed::from_int(4), Fixed::from_int(-7)]);
    let mut y = Vector::zeros(2);
    NonLinearOp::call_inplace(&mut u, &x, Fixed::zero(), &mut y);
    assert_eq!(y.get(0).raw(), 4 * ONE);
    assert_eq!(y.get(1).raw(), -7 * ONE);
    // y <- x + 2 * y as a linear operator
    let mut y2 = Vector::from_vec(vec![Fixed::from_int(1), Fixed::from_int(1)]);
    u.gemv_inplace(&x, Fixed::zero(), Fixed::from_int(2), &mut y2);
    assert_eq!(y2.get(0).raw(), 6 * ONE);
    assert_eq!(y2.get(1).raw(), -5 * ONE);
}

#[test]
fn test_solution_push_keeps_times_sorted() {
    let mut sol = OdeSolverSolution::default();
    sol.push(Vector::from_vec(vec![Fixed::from_int(2)]), Fixed::from_int(2));
    sol.push(Vector::from_vec(vec![Fixed::from_int(1)]), Fixed::from_int(1));
    sol.push(Vector::from_vec(vec![Fixed::from_int(3)]), Fixed::from_int(3));
    assert_eq!(sol.solution_points.len(), 3);
    assert_eq!(sol.solution_points[0].t.raw(), ONE);
    assert_eq!(sol.solution_points[1].t.raw(), 2 * ONE);
    assert_eq!(sol.solution_points[2].t.raw(), 3 * ONE);
    assert_eq!(sol.solution_points[0].state.get(0).raw(), ONE);
}

#[test]
fn test_constant_closure() {
    let mut c = ConstantClosure::new(
        |t: Fixed| Vector::from_vec(vec![t, Fixed::from_int(9)]),
        2,
        2,
    );
    assert_eq!(c.nstates(), 2);
    let y = c.call(Fixed::from_int(4));
    assert_eq!(y.get(0).raw(), 4 * ONE);
    assert_eq!(y.get(1).raw(), 9 * ONE);
    // the Jacobian of a constant operator is zero
    let mut z = Vector::from_vec(vec![Fixed::one(), Fixed::one()]);
    c.jac_mul_inplace(&mut z);
    assert_eq!(z.get(0).raw(), 0);
    assert_eq!(z.get(1).raw(), 0);
    assert_eq!(c.statistics().number_of_calls, 1);
}

#[test]
fn test_matrix_scale_in_place() {
    let mut m = tridiag_like();
    m.scale_assign(Fixed::from_int(2));
    assert_eq!(m.get(0, 0).raw(), 2 * ONE);
    assert_eq!(m.get(0, 1).raw(), 4 * ONE);
    assert_eq!(m.get(1, 0).raw(), 6 * ONE);
    assert_eq!(m.get(1, 1).raw(), 8 * ONE);
}

fn tridiag_like() -> Matrix {
    let mut m = Matrix::zeros(2, 2);
    m.set(0, 0, Fixed::from_int(1));
    m.set(0, 1, Fixed::from_int(2));
    m.set(1, 0, Fixed::from_int(3));
    m.set(1, 1, Fixed::from_int(4));
    m
}

#[test]
fn test_copy_from_twice_equals_last() {
    let a = tridiag_like();
    let mut b = Matrix::zeros(2, 2);
    b.set(0, 0, Fixed::from_int(9));
    b.set(1, 1, Fixed::from_int(-9));
    let mut m1 = Matrix::zeros(2, 2);
    m1.copy_from(&a);
    m1.copy_from(&b);
    let mut m2 = Matrix::zeros(2, 2);
    m2.copy_from(&b);
    for i in 0..2 {
        for j in 0..2 {
            assert_eq!(m1.get(i, j).raw(), m2.get(i, j).raw());
        }
    }
}

#[test]
fn test_lu_pivots_zero_leading_entry() {
    // A = [[0, 1], [1, 0]] is nonsingular; row pivoting must solve it.
    let mut a = Matrix::zeros(2, 2);
    a.set(0, 1, Fixed::from_int(1));
    a.set(1, 0, Fixed::from_int(1));
    let mut lu = LuSolver::new();
    lu.set_matrix(&a).unwrap();
    let mut b = Vector::from_vec(vec![Fixed::from_int(2), Fixed::from_int(3)]);
    lu.solve_in_place(&mut b).unwrap();
    assert_eq!(b.get(0).raw(), 3 * ONE);
    assert_eq!(b.get(1).raw(), 2 * ONE);
}

#[test]
fn test_lu_pivots_for_stability() {
    // A = [[1, 3], [2, 1]]: the magnitude-2 entry below the diagonal is
    // chosen as the first pivot; the exact solution of A x = (5, 7) is
    // x = (3.2, 0.6).
    let mut a = Matrix::zeros(2, 2);
    a.set(0, 0, Fixed::from_int(1));
    a.set(0, 1, Fixed::from_int(3));
    a.set(1, 0, Fixed::from_int(2));
    a.set(1, 1, Fixed::from_int(1));
    let mut lu = LuSolver::new();
    lu.set_matrix(&a).unwrap();
    let mut b = Vector::from_vec(vec![Fixed::from_int(5), Fixed::from_int(7)]);
    lu.solve_in_place(&mut b).unwrap();
    let tol = Fixed::from_ratio(1, 1000000);
    assert!(b.get(0).sub(Fixed::from_ratio(16, 5)).abs().le(tol));
    assert!(b.get(1).sub(Fixed::from_ratio(3, 5)).abs().le(tol));
}
