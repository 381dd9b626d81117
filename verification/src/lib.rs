//! Les décisions du moteur de rendu : adresses de la mémoire de surface, allocation et
//! placement de la densité, file de dessin, choix des cibles et des passes.

pub mod calcul;
pub mod surface;
pub mod allocation;
pub mod placement;
pub mod file;
pub mod ecran;
pub mod cibles;
pub mod pipeline;
pub mod instances;
pub mod cadre;
pub mod banc;
pub mod oit;
pub mod occlusion;
pub mod ombre;
pub mod texture;
pub mod ppm;
