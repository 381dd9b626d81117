//! Les interrupteurs de banc : une variable d'environnement qui éteint un effet, pour mesurer ce
//! qu'il coûte en comparant deux exécutions du même binaire.
//!
//! `0` éteint, `1` allume, l'absence laisse allumé ; les blancs autour de la valeur ne comptent
//! pas. Une valeur illisible allume plutôt que d'être fatale — et doit être signalée : une variable mal tapée qui éteindrait un effet en silence ferait
//! chercher un défaut ailleurs pendant des heures.

use vstd::prelude::*;
use vstd::string::StrSliceExecFns;
use crate::cibles::ECHANTILLONS_VOULUS;
use crate::ppm::{entier_de, lecture_u32};

verus! {

/// Ce qu'une valeur d'interrupteur dit.
#[derive(Clone, Copy, PartialEq, Eq, Debug, Structural)]
pub enum Interrupteur {
    /// La variable n'est pas posée.
    Absent,
    /// `0` : l'effet est éteint.
    Eteint,
    /// `1` : l'effet est allumé.
    Allume,
    /// Ni `0` ni `1` : l'effet reste allumé, et il faut le dire.
    Illisible,
}

/// Un blanc au sens de la propriété Unicode `White_Space`.
pub open spec fn blanc_unicode(c: char) -> bool {
    let u = c as u32;
    ||| 0x09 <= u <= 0x0D
    ||| u == 0x20 || u == 0x85 || u == 0xA0 || u == 0x1680
    ||| 0x2000 <= u <= 0x200A
    ||| u == 0x2028 || u == 0x2029 || u == 0x202F || u == 0x205F || u == 0x3000
}

/// Le texte privé de ses blancs de tête.
pub open spec fn sans_blancs_de_tete(t: Seq<char>) -> Seq<char>
    decreases t.len(),
{
    if t.len() > 0 && blanc_unicode(t[0]) { sans_blancs_de_tete(t.drop_first()) } else { t }
}

/// Le texte privé de ses blancs de queue.
pub open spec fn sans_blancs_de_queue(t: Seq<char>) -> Seq<char>
    decreases t.len(),
{
    if t.len() > 0 && blanc_unicode(t.last()) { sans_blancs_de_queue(t.drop_last()) } else { t }
}

/// Le texte privé de ses blancs de tête et de queue.
pub open spec fn sans_blancs(t: Seq<char>) -> Seq<char> {
    sans_blancs_de_queue(sans_blancs_de_tete(t))
}

/// `str::trim` : le texte sans ses blancs Unicode de tête et de queue.
#[verifier::external_body]
fn sans_blancs_de(texte: &str) -> (r: &str)
    ensures
        r@ == sans_blancs(texte@),
{
    texte.trim()
}

/// Ce qu'une valeur posée dit, une fois ses blancs retirés : `0` éteint, `1` allume, tout le
/// reste est illisible.
pub open spec fn classement(t: Seq<char>) -> Interrupteur {
    if t == seq!['0'] {
        Interrupteur::Eteint
    } else if t == seq!['1'] {
        Interrupteur::Allume
    } else {
        Interrupteur::Illisible
    }
}

/// Ce qu'une valeur d'interrupteur, telle que l'environnement la donne, dit.
pub open spec fn lecture_d_interrupteur(valeur: Option<Seq<char>>) -> Interrupteur {
    match valeur {
        None => Interrupteur::Absent,
        Some(t) => classement(sans_blancs(t)),
    }
}

/// Classe une valeur déjà débarrassée de ses blancs.
fn classer(t: &str) -> (r: Interrupteur)
    ensures
        r == classement(t@),
{
    if t.unicode_len() == 1 {
        let c = t.get_char(0);
        if c == '0' {
            proof {
                assert(t@ =~= seq!['0']);
            }
            Interrupteur::Eteint
        } else if c == '1' {
            proof {
                assert(t@ =~= seq!['1']);
            }
            Interrupteur::Allume
        } else {
            Interrupteur::Illisible
        }
    } else {
        proof {
            assert(seq!['0'].len() == 1 && seq!['1'].len() == 1);
        }
        Interrupteur::Illisible
    }
}

/// Lit la valeur d'un interrupteur telle que l'environnement la donne : les blancs de tête et
/// de queue ne comptent pas.
pub fn lire_interrupteur(valeur: Option<&str>) -> (r: Interrupteur)
    ensures
        r == lecture_d_interrupteur(match valeur {
            None => None,
            Some(t) => Some(t@),
        }),
{
    match valeur {
        None => Interrupteur::Absent,
        Some(t) => classer(sans_blancs_de(t)),
    }
}

/// Le plafond d'échantillons qu'une valeur posée impose : le nombre qu'elle écrit, blancs de tête
/// et de queue retirés ; [`ECHANTILLONS_VOULUS`] quand elle est absente ou ne se lit pas.
pub open spec fn plafond_de(valeur: Option<Seq<char>>) -> u32 {
    match valeur {
        None => ECHANTILLONS_VOULUS,
        Some(t) => match lecture_u32(sans_blancs(t)) {
            Some(n) => n,
            None => ECHANTILLONS_VOULUS,
        },
    }
}

/// Le nombre qu'un texte écrit, blancs de tête et de queue retirés, s'il se lit comme un `u32`.
pub fn nombre_ecrit(texte: &str) -> (r: Option<u32>)
    ensures
        r == lecture_u32(sans_blancs(texte@)),
{
    entier_de(sans_blancs_de(texte))
}

/// Le plafond d'échantillons que `AEGIS_ECHANTILLONS` impose, à partir de sa valeur telle que
/// l'environnement la donne.
pub fn plafond_lu(valeur: Option<&str>) -> (r: u32)
    ensures
        r == plafond_de(match valeur {
            None => None,
            Some(t) => Some(t@),
        }),
{
    match valeur {
        None => ECHANTILLONS_VOULUS,
        Some(t) => match nombre_ecrit(t) {
            Some(n) => n,
            None => ECHANTILLONS_VOULUS,
        },
    }
}

impl Interrupteur {
    /// L'effet est-il allumé ? Seul `0` l'éteint.
    pub fn allume(&self) -> (r: bool)
        ensures
            r == !(*self == Interrupteur::Eteint),
    {
        match self {
            Interrupteur::Eteint => false,
            _ => true,
        }
    }
}

} // verus!
