//! The addresses of the programs that the vault calls.

use crate::key::{base58_value, be_value, is_base58_of, known_pubkey, opens_with, Pubkey};
use vstd::prelude::*;

verus! {

/// The address whose bytes are all zero: that of the System program.
pub const SYSTEM_PROGRAM: [u8; 32] = [
    0, 0, 0, 0, 0, 0, 0, 0, 0, 0, 0, 0, 0, 0, 0, 0, 0, 0, 0, 0, 0, 0, 0, 0, 0, 0, 0, 0, 0, 0, 0, 0,
];

/// The SPL Token program, `TokenkegQfeZyiNwAJbNbGKPFXCWuBvf9Ss623VQ5DA`.
pub const TOKEN_PROGRAM: [u8; 32] = [
    6, 221, 246, 225, 215, 101, 161, 147, 217, 203, 225, 70, 206, 235, 121, 172, 28, 180, 133, 237, 95, 91,
    55, 145, 58, 140, 245, 133, 126, 255, 0, 169,
];

/// The associated token account program,
/// `ATokenGPvbdGVxr1b2hvZbsiqW5xWH25efTNsLJA8knL`.
pub const ATA_PROGRAM: [u8; 32] = [
    140, 151, 37, 143, 78, 36, 137, 241, 187, 61, 16, 41, 20, 142, 13, 131, 11, 90, 19, 153, 218, 255,
    16, 132, 4, 142, 123, 216, 219, 233, 248, 89,
];

/// The compute budget program, `ComputeBudget111111111111111111111111111111`.
pub const COMPUTE_BUDGET_PROGRAM: [u8; 32] = [
    3, 6, 70, 111, 229, 33, 23, 50, 255, 236, 173, 186, 114, 195, 155, 231, 188, 140, 229, 187, 197,
    247, 18, 107, 44, 67, 155, 58, 64, 0, 0, 0,
];

/// The address of the SPL Token program.
pub fn token_program() -> (r: Pubkey)
    ensures
        r@ == TOKEN_PROGRAM@,
{
    proof {
        lemma_token_program_text();
    }
    known_pubkey("TokenkegQfeZyiNwAJbNbGKPFXCWuBvf9Ss623VQ5DA", &TOKEN_PROGRAM)
}

/// The address of the associated token account program.
pub fn ata_program() -> (r: Pubkey)
    ensures
        r@ == ATA_PROGRAM@,
{
    proof {
        lemma_ata_program_text();
    }
    known_pubkey("ATokenGPvbdGVxr1b2hvZbsiqW5xWH25efTNsLJA8knL", &ATA_PROGRAM)
}

/// The address of the compute budget program.
pub fn compute_budget_program() -> (r: Pubkey)
    ensures
        r@ == COMPUTE_BUDGET_PROGRAM@,
{
    proof {
        lemma_compute_budget_program_text();
    }
    known_pubkey("ComputeBudget111111111111111111111111111111", &COMPUTE_BUDGET_PROGRAM)
}

// ---------------------------------------------------------------------------
// The texts, one digit at a time
// ---------------------------------------------------------------------------

/// The text of [`TOKEN_PROGRAM`] spells its bytes.
proof fn lemma_token_program_text()
    ensures
        is_base58_of(
            "TokenkegQfeZyiNwAJbNbGKPFXCWuBvf9Ss623VQ5DA"@,
            TOKEN_PROGRAM@,
        ),
{
    let s = "TokenkegQfeZyiNwAJbNbGKPFXCWuBvf9Ss623VQ5DA"@;
    let b = TOKEN_PROGRAM@;
    reveal_strlit("TokenkegQfeZyiNwAJbNbGKPFXCWuBvf9Ss623VQ5DA");
    assert(base58_value(s, 0) == Some(0nat));
    assert(base58_value(s, 1) == Some(26nat));
    assert(base58_value(s, 2) == Some(1554nat));
    assert(base58_value(s, 3) == Some(90175nat));
    assert(base58_value(s, 4) == Some(5230187nat));
    assert(base58_value(s, 5) == Some(303350891nat));
    assert(base58_value(s, 6) == Some(17594351721nat));
    assert(base58_value(s, 7) == Some(1020472399855nat));
    assert(base58_value(s, 8) == Some(59187399191629nat));
    assert(base58_value(s, 9) == Some(3432869153114505nat));
    assert(base58_value(s, 10) == Some(199106410880641328nat));
    assert(base58_value(s, 11) == Some(11548171831077197061nat));
    assert(base58_value(s, 12) == Some(669793966202477429570nat));
    assert(base58_value(s, 13) == Some(38848050039743690915116nat));
    assert(base58_value(s, 14) == Some(2253186902305134073076769nat));
    assert(base58_value(s, 15) == Some(130684840333697776238452623nat));
    assert(base58_value(s, 16) == Some(7579720739354471021830252188nat));
    assert(base58_value(s, 17) == Some(439623802882559319266154626913nat));
    assert(base58_value(s, 18) == Some(25498180567188440517436968360971nat));
    assert(base58_value(s, 19) == Some(1478894472896929550011344164936352nat));
    assert(base58_value(s, 20) == Some(85775879428021913900657961566308437nat));
    assert(base58_value(s, 21) == Some(4975001006825271006238161770845889380nat));
    assert(base58_value(s, 22) == Some(288550058395865718361813382709061584055nat));
    assert(base58_value(s, 23) == Some(16735903386960211664985176197125571875208nat));
    assert(base58_value(s, 24) == Some(970682396443692276569140219433283168762086nat));
    assert(base58_value(s, 25) == Some(56299578993734152041010132727130423788201002nat));
    assert(base58_value(s, 26) == Some(3265375581636580818378587698173564579715658146nat));
    assert(base58_value(s, 27) == Some(189391783734921687465958086494066745623508172479nat));
    assert(base58_value(s, 28) == Some(10984723456625457873025569016655871246163474003811nat));
    assert(base58_value(s, 29) == Some(637113960484276556635483002966040532277481492221090nat));
    assert(base58_value(s, 30) == Some(36952609708088040284858014172030350872093926548823230nat));
    assert(base58_value(s, 31) == Some(2143251363069106336521764821977760350581447739831747393nat));
    assert(base58_value(s, 32) == Some(124308579058008167518262359674710100333723968910241348832nat));
    assert(base58_value(s, 33) == Some(7209897585364473716059216861133185819355990196793998232264nat));
    assert(base58_value(s, 34) == Some(418174059951139475531434577945724777522647431414051897471337nat));
    assert(base58_value(s, 35) == Some(24254095477166089580823205520852037096313551022015010053337596nat));
    assert(base58_value(s, 36) == Some(1406737537675633195687745920209418151586185959276870583093580573nat));
    assert(base58_value(s, 37) == Some(81590777185186725349889263372146252791998785638058493819427673235nat));
    assert(base58_value(s, 38) == Some(4732265076740830070293577275584482661935929567007392641526805047632nat));
    assert(base58_value(s, 39) == Some(274471374450968144077027481983899994392283914886428773208554692762684nat));
    assert(base58_value(s, 40) == Some(15919339718156152356467593955066199674752467063412868846096172180235695nat));
    assert(base58_value(s, 41) == Some(923321703653056836675120449393839581135643089677946393073577986453670314nat));
    assert(base58_value(s, 42) == Some(53552658811877296527156986064842695705867299201320890798267523214312878224nat));
    assert(base58_value(s, 43) == Some(3106054211088883198575105191760876350940303353676611666299516346430146937001nat));
    assert(be_value(b, 0) == 0nat);
    assert(be_value(b, 1) == 6nat);
    assert(be_value(b, 2) == 1757nat);
    assert(be_value(b, 3) == 450038nat);
    assert(be_value(b, 4) == 115209953nat);
    assert(be_value(b, 5) == 29493748183nat);
    assert(be_value(b, 6) == 7550399534949nat);
    assert(be_value(b, 7) == 1932902280947105nat);
    assert(be_value(b, 8) == 494822983922459027nat);
    assert(be_value(b, 9) == 126674683884149511129nat);
    assert(be_value(b, 10) == 32428719074342274849227nat);
    assert(be_value(b, 11) == 8301752083031622361402337nat);
    assert(be_value(b, 12) == 2125248533256095324518998342nat);
    assert(be_value(b, 13) == 544063624513560403076863575758nat);
    assert(be_value(b, 14) == 139280287875471463187677075394283nat);
    assert(be_value(b, 15) == 35655753696120694576045331300936569nat);
    assert(be_value(b, 16) == 9127872946206897811467604813039761836nat);
    assert(be_value(b, 17) == 2336735474228965839735706832138179030044nat);
    assert(be_value(b, 18) == 598204281402615254972340949027373831691444nat);
    assert(be_value(b, 19) == 153140296039069505272919282951007700913009797nat);
    assert(be_value(b, 20) == 39203915786001793349867336435457971433730508269nat);
    assert(be_value(b, 21) == 10036202441216459097566038127477240687035010116959nat);
    assert(be_value(b, 22) == 2569267824951413528976905760634173615880962589941595nat);
    assert(be_value(b, 23) == 657732563187561863418087874722348445665526423025048375nat);
    assert(be_value(b, 24) == 168379536176015837035030495928921202090374764294412384145nat);
    assert(be_value(b, 25) == 43105161261060054280967806957803827735135939659369570341178nat);
    assert(be_value(b, 26) == 11034921282831373895927758581197779900194800552798610007341708nat);
    assert(be_value(b, 27) == 2824939848404831717357506196786631654449868941516444161879477493nat);
    assert(be_value(b, 28) == 723184601191636919643521586377377703539166449028209705441146238341nat);
    assert(be_value(b, 29) == 185135257905059051428741526112608692106026610951221684592933437015422nat);
    assert(be_value(b, 30) == 47394626023695117165757830684827825179142812403512751255790959875948287nat);
    assert(be_value(b, 31) == 12133024262065949994434004655315923245860559975299264321482485728242761472nat);
    assert(be_value(b, 32) == 3106054211088883198575105191760876350940303353676611666299516346430146937001nat);
    assert(opens_with(s, '1', 0) && opens_with(b, 0u8, 0));
}

/// The text of [`ATA_PROGRAM`] spells its bytes.
proof fn lemma_ata_program_text()
    ensures
        is_base58_of(
            "ATokenGPvbdGVxr1b2hvZbsiqW5xWH25efTNsLJA8knL"@,
            ATA_PROGRAM@,
        ),
{
    let s = "ATokenGPvbdGVxr1b2hvZbsiqW5xWH25efTNsLJA8knL"@;
    let b = ATA_PROGRAM@;
    reveal_strlit("ATokenGPvbdGVxr1b2hvZbsiqW5xWH25efTNsLJA8knL");
    assert(base58_value(s, 0) == Some(0nat));
    assert(base58_value(s, 1) == Some(9nat));
    assert(base58_value(s, 2) == Some(548nat));
    assert(base58_value(s, 3) == Some(31830nat));
    assert(base58_value(s, 4) == Some(1846183nat));
    assert(base58_value(s, 5) == Some(107078651nat));
    assert(base58_value(s, 6) == Some(6210561803nat));
    assert(base58_value(s, 7) == Some(360212584589nat));
    assert(base58_value(s, 8) == Some(20892329906184nat));
    assert(base58_value(s, 9) == Some(1211755134558725nat));
    assert(base58_value(s, 10) == Some(70281797804406084nat));
    assert(base58_value(s, 11) == Some(4076344272655552908nat));
    assert(base58_value(s, 12) == Some(236427967814022068679nat));
    assert(base58_value(s, 13) == Some(13712822133213279983410nat));
    assert(base58_value(s, 14) == Some(795343683726370239037835nat));
    assert(base58_value(s, 15) == Some(46129933656129473864194479nat));
    assert(base58_value(s, 16) == Some(2675536152055509484123279782nat));
    assert(base58_value(s, 17) == Some(155181096819219550079150227390nat));
    assert(base58_value(s, 18) == Some(9000503615514733904590713188621nat));
    assert(base58_value(s, 19) == Some(522029209699854566466261364940058nat));
    assert(base58_value(s, 20) == Some(30277694162591564855043159166523417nat));
    assert(base58_value(s, 21) == Some(1756106261430310761592503231658358218nat));
    assert(base58_value(s, 22) == Some(101854163162958024172365187436184776678nat));
    assert(base58_value(s, 23) == Some(5907541463451565401997180871298717047374nat));
    assert(base58_value(s, 24) == Some(342637404880190793315836490535325588747733nat));
    assert(base58_value(s, 25) == Some(19872969483051066012318516451048884147368562nat));
    assert(base58_value(s, 26) == Some(1152632230016961828714473954160835280547376625nat));
    assert(base58_value(s, 27) == Some(66852669340983786065439489341328446271747844254nat));
    assert(base58_value(s, 28) == Some(3877454821777059591795490381797049883761374966787nat));
    assert(base58_value(s, 29) == Some(224892379663069456324138442144228893258159748073675nat));
    assert(base58_value(s, 30) == Some(13043758020458028466800029644365275808973265388273166nat));
    assert(base58_value(s, 31) == Some(756537965186565651074401719373185996920449392519843629nat));
    assert(base58_value(s, 32) == Some(43879201980820807762315299723644787821386064766150930486nat));
    assert(base58_value(s, 33) == Some(2544993714887606850214287383971397693640391756436753968225nat));
    assert(base58_value(s, 34) == Some(147609635463481197312428668270341066231142721873331730157088nat));
    assert(base58_value(s, 35) == Some(8561358856881909444120862759679781841406277868653240349111130nat));
    assert(base58_value(s, 36) == Some(496558813699150747759010040061427346801564116381887940248445561nat));
    assert(base58_value(s, 37) == Some(28800411194550743370022582323562786114490718750149500534409842588nat));
    assert(base58_value(s, 38) == Some(1670423849283943115461309774766641594640461687508671030995770870123nat));
    assert(base58_value(s, 39) == Some(96884583258468700696755966936465212489146777875502919797754710467151nat));
    assert(base58_value(s, 40) == Some(5619305828991184640411846082314982324370513116779169348269773207094767nat));
    assert(base58_value(s, 41) == Some(325919738081488709143887072774268974813489760773191822199646846011496493nat));
    assert(base58_value(s, 42) == Some(18903344808726345130345450220907600539182406124845125687579517068666796637nat));
    assert(base58_value(s, 43) == Some(1096393998906128017560036112812640831272579555241017289879611989982674204991nat));
    assert(base58_value(s, 44) == Some(63590851936555425018482094543133168213809614203979002813017495418995103889497nat));
    assert(be_value(b, 0) == 0nat);
    assert(be_value(b, 1) == 140nat);
    assert(be_value(b, 2) == 35991nat);
    assert(be_value(b, 3) == 9213733nat);
    assert(be_value(b, 4) == 2358715791nat);
    assert(be_value(b, 5) == 603831242574nat);
    assert(be_value(b, 6) == 154580798098980nat);
    assert(be_value(b, 7) == 39572684313339017nat);
    assert(be_value(b, 8) == 10130607184214788593nat);
    assert(be_value(b, 9) == 2593435439158985879995nat);
    assert(be_value(b, 10) == 663919472424700385278781nat);
    assert(be_value(b, 11) == 169963384940723298631367952nat);
    assert(be_value(b, 12) == 43510626544825164449630195753nat);
    assert(be_value(b, 13) == 11138720395475242099105330112788nat);
    assert(be_value(b, 14) == 2851512421241661977370964508873870nat);
    assert(be_value(b, 15) == 729987179837865466206966914271710733nat);
    assert(be_value(b, 16) == 186876718038493559348983530053557947779nat);
    assert(be_value(b, 17) == 47840439817854351193339783693710834631435nat);
    assert(be_value(b, 18) == 12247152593370713905494984625589973665647450nat);
    assert(be_value(b, 19) == 3135271063902902759806716064151033258405747219nat);
    assert(be_value(b, 20) == 802629392359143106510519312422664514151871288217nat);
    assert(be_value(b, 21) == 205473124443940635266692943980202115622879049783770nat);
    assert(be_value(b, 22) == 52601119857648802628273393658931741599457036744645375nat);
    assert(be_value(b, 23) == 13465886683558093472837988776686525849461001406629216016nat);
    assert(be_value(b, 24) == 3447266990990871929046525126831750617462016360097079300228nat);
    assert(be_value(b, 25) == 882500349693663213835910432468928158070276188184852300858372nat);
    assert(be_value(b, 26) == 225920089521577782741993070712045608465990704175322189019743374nat);
    assert(be_value(b, 27) == 57835542917523912381950226102283675767293620268882480389054303867nat);
    assert(be_value(b, 28) == 14805898986886121569779257882184620996427166788833914979597901790168nat);
    assert(be_value(b, 29) == 3790310140642847121863490017839262975085354697941482234777062858283227nat);
    assert(be_value(b, 30) == 970319396004568863197053444566851321621850802673019452102928091720506345nat);
    assert(be_value(b, 31) == 248401765377169628978445681809113938335193805484292979738349591480449624568nat);
    assert(be_value(b, 32) == 63590851936555425018482094543133168213809614203979002813017495418995103889497nat);
    assert(opens_with(s, '1', 0) && opens_with(b, 0u8, 0));
}

/// The text of [`COMPUTE_BUDGET_PROGRAM`] spells its bytes.
proof fn lemma_compute_budget_program_text()
    ensures
        is_base58_of(
            "ComputeBudget111111111111111111111111111111"@,
            COMPUTE_BUDGET_PROGRAM@,
        ),
{
    let s = "ComputeBudget111111111111111111111111111111"@;
    let b = COMPUTE_BUDGET_PROGRAM@;
    reveal_strlit("ComputeBudget111111111111111111111111111111");
    assert(base58_value(s, 0) == Some(0nat));
    assert(base58_value(s, 1) == Some(11nat));
    assert(base58_value(s, 2) == Some(684nat));
    assert(base58_value(s, 3) == Some(39716nat));
    assert(base58_value(s, 4) == Some(2303575nat));
    assert(base58_value(s, 5) == Some(133607402nat));
    assert(base58_value(s, 6) == Some(7749229367nat));
    assert(base58_value(s, 7) == Some(449455303323nat));
    assert(base58_value(s, 8) == Some(26068407592744nat));
    assert(base58_value(s, 9) == Some(1511967640379204nat));
    assert(base58_value(s, 10) == Some(87694123141993868nat));
    assert(base58_value(s, 11) == Some(5086259142235644383nat));
    assert(base58_value(s, 12) == Some(295003030249667374251nat));
    assert(base58_value(s, 13) == Some(17110175754480707706609nat));
    assert(base58_value(s, 14) == Some(992390193759881046983322nat));
    assert(base58_value(s, 15) == Some(57558631238073100725032676nat));
    assert(base58_value(s, 16) == Some(3338400611808239842051895208nat));
    assert(base58_value(s, 17) == Some(193627235484877910839009922064nat));
    assert(base58_value(s, 18) == Some(11230379658122918828662575479712nat));
    assert(base58_value(s, 19) == Some(651362020171129292062429377823296nat));
    assert(base58_value(s, 20) == Some(37778997169925498939620903913751168nat));
    assert(base58_value(s, 21) == Some(2191181835855678938498012426997567744nat));
    assert(base58_value(s, 22) == Some(127088546479629378432884720765858929152nat));
    assert(base58_value(s, 23) == Some(7371135695818503949107313804419817890816nat));
    assert(base58_value(s, 24) == Some(427525870357473229048224200656349437667328nat));
    assert(base58_value(s, 25) == Some(24796500480733447284797003638068267384705024nat));
    assert(base58_value(s, 26) == Some(1438197027882539942518226211007959508312891392nat));
    assert(base58_value(s, 27) == Some(83415427617187316666057120238461651482147700736nat));
    assert(base58_value(s, 28) == Some(4838094801796864366631312973830775785964566642688nat));
    assert(base58_value(s, 29) == Some(280609498504218133264616152482184995585944865275904nat));
    assert(base58_value(s, 30) == Some(16275350913244651729347736843966729743984802186002432nat));
    assert(base58_value(s, 31) == Some(943970352968189800302168736950070325151118526788141056nat));
    assert(base58_value(s, 32) == Some(54750280472155008417525786743104078858764874553712181248nat));
    assert(base58_value(s, 33) == Some(3175516267384990488216495631100036573808362724115306512384nat));
    assert(base58_value(s, 34) == Some(184179943508329448316556746603802121280885037998687777718272nat));
    assert(base58_value(s, 35) == Some(10682436723483108002360291303020523034291332203923891107659776nat));
    assert(base58_value(s, 36) == Some(619581329962020264136896895575190335988897267827585684244267008nat));
    assert(base58_value(s, 37) == Some(35935717137797175319940019943361039487356041533999969686167486464nat));
    assert(base58_value(s, 38) == Some(2084271593992236168556521156714940290266650408971998241797714214912nat));
    assert(base58_value(s, 39) == Some(120887752451549697776278227089466536835465723720375898024267424464896nat));
    assert(base58_value(s, 40) == Some(7011489642189882471024137171189059136457011975781802085407510618963968nat));
    assert(base58_value(s, 41) == Some(406666399247013183319399955928965429914506694595344520953635615899910144nat));
    assert(base58_value(s, 42) == Some(23586651156326764632525197443879994935041388286529982215310865722194788352nat));
    assert(base58_value(s, 43) == Some(1368025767066952348686461451745039706232400520618738968488030211887297724416nat));
    assert(be_value(b, 0) == 0nat);
    assert(be_value(b, 1) == 3nat);
    assert(be_value(b, 2) == 774nat);
    assert(be_value(b, 3) == 198214nat);
    assert(be_value(b, 4) == 50742895nat);
    assert(be_value(b, 5) == 12990181349nat);
    assert(be_value(b, 6) == 3325486425377nat);
    assert(be_value(b, 7) == 851324524896535nat);
    assert(be_value(b, 8) == 217939078373513010nat);
    assert(be_value(b, 9) == 55792404063619330815nat);
    assert(be_value(b, 10) == 14282855440286548688876nat);
    assert(be_value(b, 11) == 3656410992713356464352429nat);
    assert(be_value(b, 12) == 936041214134619254874222010nat);
    assert(be_value(b, 13) == 239626550818462529247800834674nat);
    assert(be_value(b, 14) == 61344397009526407487437013676739nat);
    assert(be_value(b, 15) == 15704165634438760316783875501245339nat);
    assert(be_value(b, 16) == 4020266402416322641096672128318807015nat);
    assert(be_value(b, 17) == 1029188199018578596120748064849614596028nat);
    assert(be_value(b, 18) == 263472178948756120606911504601501336583308nat);
    assert(be_value(b, 19) == 67448877810881566875369345177984342165327077nat);
    assert(be_value(b, 20) == 17266912719585681120094552365563991594323731899nat);
    assert(be_value(b, 21) == 4420329656213934366744205405584381848146875366341nat);
    assert(be_value(b, 22) == 1131604391990767197886516583829601753125600093783543nat);
    assert(be_value(b, 23) == 289690724349636402658948245460378048800153624008587026nat);
    assert(be_value(b, 24) == 74160825433506919080690750837856780492839327746198278763nat);
    assert(be_value(b, 25) == 18985171310977771284656832214491335806166867903026759363372nat);
    assert(be_value(b, 26) == 4860203855610309448872149046909781966378718183174850397023299nat);
    assert(be_value(b, 27) == 1244212187036239218911270156008904183392951854892761701637964699nat);
    assert(be_value(b, 28) == 318518319881277240041285159938279470948595674852546995619318963002nat);
    assert(be_value(b, 29) == 81540689889606973450569000944199544562840492762252030878545654528576nat);
    assert(be_value(b, 30) == 20874416611739385203345664241715083408087166147136519904907687559315456nat);
    assert(be_value(b, 31) == 5343850652605282612056490045879061352470314533666949095656368015184756736nat);
    assert(be_value(b, 32) == 1368025767066952348686461451745039706232400520618738968488030211887297724416nat);
    assert(opens_with(s, '1', 0) && opens_with(b, 0u8, 0));
}

} // verus!
