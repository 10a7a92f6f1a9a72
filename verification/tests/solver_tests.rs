//! End-to-end tests of the solver core: Newton iteration, sparsity
//! discovery and coloring, DAE initial consistency, matrix construction,
//! and the error taxonomy.
use diffsol::linear_solver::LuSolver;
use diffsol::matrix::Matrix;
use diffsol::nonlinear_solver::newton::NewtonNonlinearSolver;
use diffsol::nonlinear_solver::{NonLinearSolveSolution, NonLinearSolver, SolverProblem};
use diffsol::ode_solver::equations::{ClosureEquations, OdeEquations};
use diffsol::ode_solver::method::OdeSolverState;
use diffsol::ode_solver::problem::OdeSolverProblem;
use diffsol::op::closure::Closure;
use diffsol::op::{NonLinearOp, Op};
use diffsol::jacobian::{find_non_zeros_nonlinear, JacobianColoring};
use diffsol::scalar::Fixed;
use diffsol::vector::Vector;
use diffsol::SolverError;

fn fx(num: i64, den: i64) -> Fixed {
    Fixed::from_ratio(num, den)
}

fn close(a: Fixed, b: Fixed, tol: Fixed) -> bool {
    a.sub(b).abs().le(tol)
}

fn square_problem() -> (
    SolverProblem<Closure<impl Fn(&Vector, &Vector, Fixed) -> Vector, impl Fn(&Vector, &Vector, Fixed, &Vector) -> Vector>>,
    Vec<NonLinearSolveSolution>,
) {
    let jac1 = Matrix::from_diagonal(&Vector::from_vec(vec![Fixed::from_int(2), Fixed::from_int(2)]));
    let jac2 = Matrix::from_diagonal(&Vector::from_vec(vec![Fixed::from_int(2), Fixed::from_int(2)]));
    let p = Vector::zeros(0);
    let op = Closure::new(
        // 0 = J * x * x - 8
        move |x: &Vector, _p: &Vector, _t: Fixed| {
            let mut y = Vector::zeros(2);
            jac1.gemv(Fixed::one(), x, Fixed::zero(), &mut y);
            y.component_mul_assign(x);
            y.add_scalar_assign(Fixed::from_int(-8));
            y
        },
        // J = 2 * J * x * dx
        move |x: &Vector, _p: &Vector, _t: Fixed, v: &Vector| {
            let mut y = Vector::zeros(2);
            jac2.gemv(Fixed::from_int(2), x, Fixed::zero(), &mut y);
            y.component_mul_assign(v);
            y
        },
        2,
        2,
        p,
    );
    let rtol = fx(1, 1000000);
    let atol = Vector::from_vec(vec![fx(1, 1000000), fx(1, 1000000)]);
    let problem = SolverProblem::new(op, atol, rtol);
    let solns = vec![NonLinearSolveSolution::new(
        Vector::from_vec(vec![fx(21, 10), fx(21, 10)]),
        Vector::from_vec(vec![Fixed::from_int(2), Fixed::from_int(2)]),
    )];
    (problem, solns)
}

#[test]
fn test_newton_cpu_square() {
    let (problem, solns) = square_problem();
    let rtol = problem.rtol;
    let mut solver = NewtonNonlinearSolver::new(LuSolver::new());
    solver.set_problem(problem);
    let t = Fixed::zero();
    for soln in solns {
        let x = solver.solve(&soln.x0, t).unwrap();
        for i in 0..x.len() {
            let tol = soln.x.get(i).abs().mul(rtol).add(fx(1, 1000000));
            assert!(close(x.get(i), soln.x.get(i), tol));
        }
    }
}

#[test]
fn test_newton_statistics_monotone() {
    let (problem, solns) = square_problem();
    let mut solver = NewtonNonlinearSolver::new(LuSolver::new());
    solver.set_problem(problem);
    let t = Fixed::zero();
    let x0 = &solns[0].x0;
    solver.solve(x0, t).unwrap();
    let calls1 = solver.problem().f.statistics().number_of_calls;
    assert!(calls1 >= 1);
    solver.solve(x0, t).unwrap();
    let calls2 = solver.problem().f.statistics().number_of_calls;
    assert!(calls2 >= calls1 + 1);
    assert!(calls2 >= 2);
}

#[test]
fn test_newton_divergence() {
    // F(x) = x^2 + 1 has no real root: Newton must report divergence.
    let op = Closure::new(
        |x: &Vector, _p: &Vector, _t: Fixed| {
            let mut y = Vector::zeros(1);
            y.set(0, x.get(0).mul(x.get(0)).add(Fixed::one()));
            y
        },
        |x: &Vector, _p: &Vector, _t: Fixed, v: &Vector| {
            let mut y = Vector::zeros(1);
            y.set(0, Fixed::from_int(2).mul(x.get(0)).mul(v.get(0)));
            y
        },
        1,
        1,
        Vector::zeros(0),
    );
    let problem = SolverProblem::new(op, Vector::from_vec(vec![fx(1, 1000000)]), fx(1, 1000000));
    let mut solver = NewtonNonlinearSolver::new(LuSolver::new());
    solver.set_problem(problem);
    let x0 = Vector::from_vec(vec![fx(1, 10)]);
    let r = solver.solve(&x0, Fixed::zero());
    assert_eq!(r.err().unwrap(), SolverError::Diverged);
    assert!(solver.niter() <= solver.max_iter());
}

#[test]
fn test_newton_max_iterations() {
    let (problem, solns) = square_problem();
    let mut solver = NewtonNonlinearSolver::new(LuSolver::new());
    solver.set_max_iter(1);
    solver.set_problem(problem);
    let r = solver.solve(&solns[0].x0, Fixed::zero());
    assert_eq!(r.err().unwrap(), SolverError::MaxIterationsExceeded);
}

#[test]
fn test_newton_singular_jacobian() {
    // The Jacobian action is identically zero: factorization must fail.
    let op = Closure::new(
        |x: &Vector, _p: &Vector, _t: Fixed| {
            let mut y = Vector::zeros(1);
            y.set(0, x.get(0).add(Fixed::one()));
            y
        },
        |_x: &Vector, _p: &Vector, _t: Fixed, _v: &Vector| Vector::zeros(1),
        1,
        1,
        Vector::zeros(0),
    );
    let problem = SolverProblem::new(op, Vector::from_vec(vec![fx(1, 1000000)]), fx(1, 1000000));
    let mut solver = NewtonNonlinearSolver::new(LuSolver::new());
    solver.set_problem(problem);
    let r = solver.solve(&Vector::from_vec(vec![Fixed::one()]), Fixed::zero());
    assert_eq!(r.err().unwrap(), SolverError::SingularMatrix);
}

fn tridiagonal_op() -> Closure<
    impl Fn(&Vector, &Vector, Fixed) -> Vector,
    impl Fn(&Vector, &Vector, Fixed, &Vector) -> Vector,
> {
    // Jacobian: (2, -1; -1, 2, -1; -1, 2), constant.
    let a = tridiagonal_matrix();
    let a2 = tridiagonal_matrix();
    Closure::new(
        move |x: &Vector, _p: &Vector, _t: Fixed| {
            let mut y = Vector::zeros(3);
            a.gemv(Fixed::one(), x, Fixed::zero(), &mut y);
            y
        },
        move |_x: &Vector, _p: &Vector, _t: Fixed, v: &Vector| {
            let mut y = Vector::zeros(3);
            a2.gemv(Fixed::one(), v, Fixed::zero(), &mut y);
            y
        },
        3,
        3,
        Vector::zeros(0),
    )
}

fn tridiagonal_matrix() -> Matrix {
    let two = Fixed::from_int(2);
    let neg = Fixed::from_int(-1);
    let mut m = Matrix::zeros(3, 3);
    m.set(0, 0, two);
    m.set(0, 1, neg);
    m.set(1, 0, neg);
    m.set(1, 1, two);
    m.set(1, 2, neg);
    m.set(2, 1, neg);
    m.set(2, 2, two);
    m
}

#[test]
fn test_sparsity_discovery_and_coloring() {
    let mut op = tridiagonal_op();
    let y0 = Vector::from_vec(vec![Fixed::one(), Fixed::one(), Fixed::one()]);
    let t0 = Fixed::zero();
    let nz = find_non_zeros_nonlinear(&mut op, &y0, t0);
    let expected = vec![(0usize, 0usize), (1, 0), (0, 1), (1, 1), (2, 1), (1, 2), (2, 2)];
    assert_eq!(nz, expected);
    // every pair of adjacent columns shares a row, and columns 0 and 2
    // share row 1, so the greedy distance-1 coloring keeps them apart
    let coloring = JacobianColoring::new_from_non_zeros(&op, nz);
    assert_eq!(coloring.ngroups(), 3);
    assert_eq!(coloring.group(0), vec![0usize]);
    assert_eq!(coloring.group(1), vec![1usize]);
    assert_eq!(coloring.group(2), vec![2usize]);
}

#[test]
fn test_colored_jacobian_matches_dense() {
    let mut plain = tridiagonal_op();
    let mut colored = tridiagonal_op();
    let y0 = Vector::from_vec(vec![Fixed::one(), Fixed::one(), Fixed::one()]);
    let t0 = Fixed::zero();
    colored.calculate_sparsity(&y0, t0);
    assert!(colored.sparsity().is_some());
    assert_eq!(colored.sparsity().unwrap().len(), 7);
    let jd = plain.jacobian(&y0, t0);
    let jc = colored.jacobian(&y0, t0);
    for i in 0..3 {
        for j in 0..3 {
            assert_eq!(jd.get(i, j).raw(), jc.get(i, j).raw());
        }
    }
    let expected = tridiagonal_matrix();
    for i in 0..3 {
        for j in 0..3 {
            assert_eq!(jd.get(i, j).raw(), expected.get(i, j).raw());
        }
    }
}

#[test]
fn test_coloring_compresses_independent_columns() {
    // A diagonal Jacobian has pairwise disjoint column supports: one probe
    // suffices for all columns, and the compressed Jacobian is exact.
    let d = Matrix::from_diagonal(&Vector::from_vec(vec![
        Fixed::from_int(3),
        Fixed::from_int(5),
        Fixed::from_int(7),
    ]));
    let d2 = Matrix::from_diagonal(&Vector::from_vec(vec![
        Fixed::from_int(3),
        Fixed::from_int(5),
        Fixed::from_int(7),
    ]));
    let mut op = Closure::new(
        move |x: &Vector, _p: &Vector, _t: Fixed| {
            let mut y = Vector::zeros(3);
            d.gemv(Fixed::one(), x, Fixed::zero(), &mut y);
            y
        },
        move |_x: &Vector, _p: &Vector, _t: Fixed, v: &Vector| {
            let mut y = Vector::zeros(3);
            d2.gemv(Fixed::one(), v, Fixed::zero(), &mut y);
            y
        },
        3,
        3,
        Vector::zeros(0),
    );
    let y0 = Vector::from_vec(vec![Fixed::one(), Fixed::one(), Fixed::one()]);
    let t0 = Fixed::zero();
    let nz = find_non_zeros_nonlinear(&mut op, &y0, t0);
    assert_eq!(nz, vec![(0usize, 0usize), (1, 1), (2, 2)]);
    let coloring = JacobianColoring::new_from_non_zeros(&op, nz);
    assert_eq!(coloring.ngroups(), 1);
    assert_eq!(coloring.group(0), vec![0usize, 1, 2]);
    op.calculate_sparsity(&y0, t0);
    let muls_before = op.statistics().number_of_jac_muls;
    let j = op.jacobian(&y0, t0);
    let muls_after = op.statistics().number_of_jac_muls;
    // one color, one Jacobian action
    assert_eq!(muls_after - muls_before, 1);
    assert_eq!(j.get(0, 0).raw(), 3 * 1073741824);
    assert_eq!(j.get(1, 1).raw(), 5 * 1073741824);
    assert_eq!(j.get(2, 2).raw(), 7 * 1073741824);
    assert_eq!(j.get(0, 1).raw(), 0);
    assert_eq!(j.get(1, 0).raw(), 0);
}

#[test]
fn test_dae_initial_consistency() {
    // Mass diag(1, 0); rhs = (y1 - t, y0 - y1); init y = (0, 0) at t0 = 0.
    let mass = Matrix::from_diagonal(&Vector::from_vec(vec![Fixed::one(), Fixed::zero()]));
    let eqn = ClosureEquations::new(
        |y: &Vector, _p: &Vector, t: Fixed| {
            let mut out = Vector::zeros(2);
            out.set(0, y.get(1).sub(t));
            out.set(1, y.get(0).sub(y.get(1)));
            out
        },
        |_y: &Vector, _p: &Vector, _t: Fixed, v: &Vector| {
            let mut out = Vector::zeros(2);
            out.set(0, v.get(1));
            out.set(1, v.get(0).sub(v.get(1)));
            out
        },
        |_t: Fixed| Vector::from_vec(vec![Fixed::zero(), Fixed::zero()]),
        mass,
        Vector::zeros(0),
        2,
    );
    let atol = Vector::from_element(2, fx(1, 1000000));
    let rtol = fx(1, 1000000);
    let problem = OdeSolverProblem::new(eqn, rtol, atol, Fixed::zero(), fx(1, 100));
    let mut root_solver = NewtonNonlinearSolver::new(LuSolver::new());
    let state = OdeSolverState::new_consistent(&problem, &mut root_solver).unwrap();
    // differential component keeps its init value; algebraic one satisfies
    // rhs component 1 == 0, i.e. y1 == y0 == 0.
    assert_eq!(state.y.get(0).raw(), 0);
    let tol = fx(1, 100000);
    assert!(close(state.y.get(1), Fixed::zero(), tol));
    assert_eq!(state.t.raw(), 0);
}

#[test]
fn test_gemv_matches_external_backend() {
    // Dense fixed-point backend against the external library on integer
    // data: A = [[1, 2], [3, 4]], x = (1, 1), alpha = 2, beta = -1,
    // y0 = (1, 1); expected y = (5, 13).
    let mut a = Matrix::zeros(2, 2);
    a.set(0, 0, Fixed::from_int(1));
    a.set(0, 1, Fixed::from_int(2));
    a.set(1, 0, Fixed::from_int(3));
    a.set(1, 1, Fixed::from_int(4));
    let x = Vector::from_vec(vec![Fixed::one(), Fixed::one()]);
    let mut y = Vector::from_vec(vec![Fixed::one(), Fixed::one()]);
    a.gemv(Fixed::from_int(2), &x, Fixed::from_int(-1), &mut y);
    assert_eq!(y.get(0).raw(), 5 * 1073741824);
    assert_eq!(y.get(1).raw(), 13 * 1073741824);

    let na = nalgebra::DMatrix::<f64>::from_row_slice(2, 2, &[1.0, 2.0, 3.0, 4.0]);
    let nx = nalgebra::DVector::<f64>::from_vec(vec![1.0, 1.0]);
    let mut ny = nalgebra::DVector::<f64>::from_vec(vec![1.0, 1.0]);
    ny.gemv(2.0, &na, &nx, -1.0);
    assert_eq!(ny[0], y.get(0).raw() as f64 / 1073741824.0);
    assert_eq!(ny[1], y.get(1).raw() as f64 / 1073741824.0);
}

#[test]
fn test_try_from_triplets() {
    let m = Matrix::try_from_triplets(
        2,
        2,
        vec![(0, 0, Fixed::from_int(1)), (1, 1, Fixed::from_int(2))],
    )
    .unwrap();
    assert_eq!(m.get(0, 0).raw(), 1073741824);
    assert_eq!(m.get(0, 1).raw(), 0);
    assert_eq!(m.get(1, 0).raw(), 0);
    assert_eq!(m.get(1, 1).raw(), 2 * 1073741824);
}

#[test]
fn test_try_from_triplets_out_of_range() {
    let r = Matrix::try_from_triplets(2, 2, vec![(2, 0, Fixed::one())]);
    assert_eq!(r.err().unwrap(), SolverError::IndexOutOfBounds);
}

#[test]
fn test_triplets_roundtrip() {
    let m = tridiagonal_matrix();
    let trips = m.triplets();
    let m2 = Matrix::try_from_triplets(3, 3, trips).unwrap();
    for i in 0..3 {
        for j in 0..3 {
            assert_eq!(m.get(i, j).raw(), m2.get(i, j).raw());
        }
    }
}

#[test]
fn test_indexing() {
    let mut m = Matrix::zeros(2, 2);
    m.set(0, 0, Fixed::from_int(1));
    m.set(0, 1, Fixed::from_int(2));
    m.set(1, 0, Fixed::from_int(3));
    m.set(1, 1, Fixed::from_int(4));
    assert_eq!(m.get(0, 0).raw(), 1073741824);
    assert_eq!(m.get(0, 1).raw(), 2 * 1073741824);
    assert_eq!(m.get(1, 0).raw(), 3 * 1073741824);
    assert_eq!(m.get(1, 1).raw(), 4 * 1073741824);
}

#[test]
fn test_reset_jacobian_idempotent() {
    let (problem1, solns) = square_problem();
    let (problem2, _) = square_problem();
    let x0 = &solns[0].x0;
    let t = Fixed::zero();
    let mut s1 = NewtonNonlinearSolver::new(LuSolver::new());
    s1.set_problem(problem1);
    s1.reset_jacobian(x0, t).unwrap();
    let r1 = s1.solve(x0, t).unwrap();
    let mut s2 = NewtonNonlinearSolver::new(LuSolver::new());
    s2.set_problem(problem2);
    s2.reset_jacobian(x0, t).unwrap();
    s2.reset_jacobian(x0, t).unwrap();
    let r2 = s2.solve(x0, t).unwrap();
    for i in 0..2 {
        assert_eq!(r1.get(i).raw(), r2.get(i).raw());
    }
}

#[test]
fn test_set_params_rebinds() {
    // rhs = (y0 - p0): rebinding the parameter moves the residual's root.
    let eqn = ClosureEquations::new(
        |y: &Vector, p: &Vector, _t: Fixed| {
            let mut out = Vector::zeros(1);
            out.set(0, y.get(0).sub(p.get(0)));
            out
        },
        |_y: &Vector, _p: &Vector, _t: Fixed, v: &Vector| {
            let mut out = Vector::zeros(1);
            out.set(0, v.get(0));
            out
        },
        |_t: Fixed| Vector::from_vec(vec![Fixed::zero()]),
        Matrix::from_diagonal(&Vector::from_vec(vec![Fixed::one()])),
        Vector::from_vec(vec![Fixed::from_int(2)]),
        1,
    );
    let atol = Vector::from_element(1, fx(1, 1000000));
    let mut problem = OdeSolverProblem::new(eqn, fx(1, 1000000), atol, Fixed::zero(), fx(1, 100));
    let x = Vector::from_vec(vec![Fixed::from_int(7)]);
    let mut rhs1 = problem.eqn.rhs();
    let r1 = rhs1.call(&x, Fixed::zero());
    assert_eq!(r1.get(0).raw(), 5 * 1073741824);
    problem.set_params(Vector::from_vec(vec![Fixed::from_int(4)])).unwrap();
    let mut rhs2 = problem.eqn.rhs();
    let r2 = rhs2.call(&x, Fixed::zero());
    assert_eq!(r2.get(0).raw(), 3 * 1073741824);
}

#[test]
fn test_newton_with_zero_leading_jacobian_entry() {
    // F(y) = (y1 - 3, y0 - 2): the Jacobian [[0, 1], [1, 0]] has a zero
    // leading entry; pivoting must still solve it, giving the root (2, 3)
    // in one step.
    let op = Closure::new(
        |y: &Vector, _p: &Vector, _t: Fixed| {
            let mut out = Vector::zeros(2);
            out.set(0, y.get(1).sub(Fixed::from_int(3)));
            out.set(1, y.get(0).sub(Fixed::from_int(2)));
            out
        },
        |_y: &Vector, _p: &Vector, _t: Fixed, v: &Vector| {
            let mut out = Vector::zeros(2);
            out.set(0, v.get(1));
            out.set(1, v.get(0));
            out
        },
        2,
        2,
        Vector::zeros(0),
    );
    let atol = Vector::from_element(2, fx(1, 1000000));
    let problem = SolverProblem::new(op, atol, fx(1, 1000000));
    let mut solver = NewtonNonlinearSolver::new(LuSolver::new());
    solver.set_problem(problem);
    let x0 = Vector::from_vec(vec![Fixed::zero(), Fixed::zero()]);
    let x = solver.solve(&x0, Fixed::zero()).unwrap();
    let tol = fx(1, 100000);
    assert!(close(x.get(0), Fixed::from_int(2), tol));
    assert!(close(x.get(1), Fixed::from_int(3), tol));
}
