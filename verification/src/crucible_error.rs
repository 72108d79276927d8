//! Errors of the declarative bench: loading profiles and banks, evaluating
//! models.
use vstd::prelude::*;

verus! {

#[verifier::external_type_specification]
#[verifier::external_body]
pub struct ExIoError(std::io::Error);

#[verifier::external_type_specification]
#[verifier::external_body]
pub struct ExYamlError(serde_yaml::Error);

/// What can go wrong in the declarative bench.
#[derive(Debug)]
pub enum CrucibleError {
    /// Reading a file failed.
    Io(std::io::Error),
    /// A YAML document did not parse.
    Yaml(serde_yaml::Error),
    /// A profile breaks a rule of the format.
    PerfilInvalido(String),
    /// A command no table knows.
    ComandoNoReconocido(String),
    /// A command names a model that does not exist.
    ModeloNoEncontrado(String),
    /// A formula could not be read or evaluated.
    Evaluacion(String),
    /// A transport could not be set up.
    Transporte(String),
    /// A protocol rule was broken.
    Protocolo(String),
}

} // verus!
