//! Les textures : comment une image se lit, selon ce qu'elle porte.
//!
//! La dimension d'une image est une intention de l'appelant, jamais une propriété mesurée sur les
//! données : un volume d'un seul texel reste un volume. Le filtrage et les bords suivent ce que
//! l'image représente — une carte se lit au plus proche voisin, de la matière et un horizon
//! s'interpolent, et un horizon boucle en azimut mais pas en élévation.

use vstd::prelude::*;

verus! {

/// Ce qu'une texture représente.
#[derive(Clone, Copy, PartialEq, Eq, Debug, Structural)]
pub enum SorteDeTexture {
    /// Une image plate : une couleur, ou une carte de géométrie.
    Plate,
    /// Un volume de matière, que le rayon traverse.
    Volume,
    /// Une carte d'environnement : plate comme une image, bouclée comme un horizon.
    Environnement,
}

/// Le filtrage à la lecture.
#[derive(Clone, Copy, PartialEq, Eq, Debug, Structural)]
pub enum Filtre {
    /// Au plus proche voisin : interpoler deux normales de part et d'autre d'une silhouette
    /// fabriquerait une normale qui n'existe sur aucune surface.
    PlusProche,
    /// Linéaire : deux échantillons voisins décrivent le même milieu.
    Lineaire,
}

/// Ce qu'une lecture hors de l'image rencontre.
#[derive(Clone, Copy, PartialEq, Eq, Debug, Structural)]
pub enum Bordure {
    /// L'image recommence de l'autre côté.
    Repetition,
    /// Le bord se prolonge.
    BordFige,
}

/// Comment une texture se crée et se lit.
#[derive(Clone, Copy, PartialEq, Eq, Debug, Structural)]
pub struct Lecture {
    /// Une image à trois dimensions.
    pub volumique: bool,
    pub filtre: Filtre,
    pub bordure_u: Bordure,
    pub bordure_v: Bordure,
    /// La troisième direction suit la deuxième.
    pub bordure_w: Bordure,
}

/// La lecture qui convient à chaque sorte de texture.
pub open spec fn lecture_attendue(sorte: SorteDeTexture) -> Lecture {
    match sorte {
        SorteDeTexture::Plate => Lecture {
            volumique: false,
            filtre: Filtre::PlusProche,
            bordure_u: Bordure::Repetition,
            bordure_v: Bordure::Repetition,
            bordure_w: Bordure::Repetition,
        },
        SorteDeTexture::Volume => Lecture {
            volumique: true,
            filtre: Filtre::Lineaire,
            bordure_u: Bordure::BordFige,
            bordure_v: Bordure::BordFige,
            bordure_w: Bordure::BordFige,
        },
        SorteDeTexture::Environnement => Lecture {
            volumique: false,
            filtre: Filtre::Lineaire,
            bordure_u: Bordure::Repetition,
            bordure_v: Bordure::BordFige,
            bordure_w: Bordure::BordFige,
        },
    }
}

/// Comment une texture de cette sorte se crée et se lit.
pub fn lecture(sorte: SorteDeTexture) -> (l: Lecture)
    ensures
        l == lecture_attendue(sorte),
{
    match sorte {
        SorteDeTexture::Plate => Lecture {
            volumique: false,
            filtre: Filtre::PlusProche,
            bordure_u: Bordure::Repetition,
            bordure_v: Bordure::Repetition,
            bordure_w: Bordure::Repetition,
        },
        SorteDeTexture::Volume => Lecture {
            volumique: true,
            filtre: Filtre::Lineaire,
            bordure_u: Bordure::BordFige,
            bordure_v: Bordure::BordFige,
            bordure_w: Bordure::BordFige,
        },
        SorteDeTexture::Environnement => Lecture {
            volumique: false,
            filtre: Filtre::Lineaire,
            bordure_u: Bordure::Repetition,
            bordure_v: Bordure::BordFige,
            bordure_w: Bordure::BordFige,
        },
    }
}

/// ⭐ La dimension ne dépend que de la sorte : seul un volume est volumique, quelle que soit sa
/// taille ; un horizon boucle en azimut et se fige en élévation ; seule une image plate se lit au
/// plus proche voisin.
pub proof fn lemme_la_dimension_est_une_intention(sorte: SorteDeTexture)
    ensures
        lecture_attendue(sorte).volumique <==> sorte == SorteDeTexture::Volume,
        lecture_attendue(sorte).filtre == Filtre::PlusProche <==> sorte == SorteDeTexture::Plate,
        sorte == SorteDeTexture::Environnement ==> lecture_attendue(sorte).bordure_u == Bordure::Repetition
            && lecture_attendue(sorte).bordure_v == Bordure::BordFige,
        lecture_attendue(sorte).bordure_w == lecture_attendue(sorte).bordure_v,
{
}

/// ⭐ **Où une lecture hors de l'image retombe.** Une image plate se répète dans toutes les
/// directions, comme un carrelage ; un volume se fige à ses bords dans toutes les directions ; un
/// horizon seul boucle dans une direction (l'azimut) et se fige dans l'autre (l'élévation). La
/// troisième direction suit toujours la deuxième.
pub proof fn lemme_ou_retombe_une_lecture(sorte: SorteDeTexture)
    ensures
        sorte == SorteDeTexture::Plate ==> lecture_attendue(sorte).bordure_u == Bordure::Repetition
            && lecture_attendue(sorte).bordure_v == Bordure::Repetition
            && lecture_attendue(sorte).bordure_w == Bordure::Repetition,
        sorte == SorteDeTexture::Volume ==> lecture_attendue(sorte).bordure_u == Bordure::BordFige
            && lecture_attendue(sorte).bordure_v == Bordure::BordFige
            && lecture_attendue(sorte).bordure_w == Bordure::BordFige,
        lecture_attendue(sorte).bordure_u != lecture_attendue(sorte).bordure_v
            <==> sorte == SorteDeTexture::Environnement,
        lecture_attendue(sorte).bordure_u == Bordure::Repetition <==> sorte != SorteDeTexture::Volume,
        lecture_attendue(sorte).bordure_w == lecture_attendue(sorte).bordure_v,
{
}

/// Les octets d'une image de `largeur × hauteur × profondeur` texels de `octets_par_texel`.
pub fn taille_en_octets(largeur: u32, hauteur: u32, profondeur: u32, octets_par_texel: u32) -> (r: u64)
    requires
        largeur * hauteur * profondeur * octets_par_texel <= u32::MAX,
    ensures
        r == largeur * hauteur * profondeur * octets_par_texel,
{
    if largeur == 0 || hauteur == 0 || profondeur == 0 || octets_par_texel == 0 {
        proof {
            assert(largeur * hauteur * profondeur * octets_par_texel == 0) by (nonlinear_arith)
                requires
                    largeur == 0 || hauteur == 0 || profondeur == 0 || octets_par_texel == 0;
        }
        return 0;
    }
    proof {
        let (a, b, c, d) = (largeur as int, hauteur as int, profondeur as int, octets_par_texel as int);
        assert(a * b <= a * b * c * d && a * b * c <= a * b * c * d) by (nonlinear_arith)
            requires
                a >= 1,
                b >= 1,
                c >= 1,
                d >= 1;
    }
    let surface = largeur as u64 * hauteur as u64;
    let volume = surface * profondeur as u64;
    volume * octets_par_texel as u64
}

} // verus!
