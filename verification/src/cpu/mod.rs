//! Host implementations.

pub mod assembly_dense;
pub mod backend;
pub mod backend_laws;
pub mod basis_lagrange;
pub mod basis_nedelec;
pub mod basis_prism;
pub mod basis_pyramid;
pub mod basis_rt;
pub mod basis_simplex;
pub mod batch;
pub mod composite_operator;
pub mod contraction_laws;
pub mod convert;
pub mod cubic_laws;
pub mod curl_laws;
pub mod dense;
pub mod eigen;
pub mod eigen_laws;
pub mod elem_restriction;
pub mod elem_restriction_face;
pub mod face_quadrature;
pub mod face_rules;
pub mod fdm_apply_laws;
pub mod fdm_inverse;
pub mod fdm_laws;
pub mod fdm_operator_laws;
pub mod fdm_tensor;
pub mod gather;
pub mod gauss;
pub mod gradient_laws;
pub mod lagrange_adjoint;
pub mod lagrange_laws;
pub mod lagrange_reproduction;
pub mod lagrange_tables;
pub mod legendre_laws;
pub mod moment_laws;
pub mod nodal;
pub mod nodal_adjoint;
pub mod nodal_laws;
pub mod point_laws;
pub mod polynomials;
pub mod product_laws;
pub mod product_reproduction;
pub mod pyramid_laws;
pub mod quadratic_laws;
pub mod quadrature;
pub mod quadrature_laws;
pub mod reproduction_laws;
pub mod rule_exactness;
pub mod rule_laws;
pub mod simplex_laws;
pub mod simplex_reproduction;
pub mod simplex_shapes;
pub mod six_point_laws;
pub mod tensor;
pub mod transfer_laws;
pub mod vector;
pub mod vector_laws;
pub mod vector_point_laws;
pub mod vector_shapes;
pub mod vector_tables;
