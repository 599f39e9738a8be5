//! The infrastructure template for the buckets of a configuration: one
//! bucket resource for each policy, with the lifetimes of the policy, and a
//! user who may write to them.

use crate::config::ConfigView;
use crate::config::ZfsBackupConfig;
use crate::config::ZfsBaseConfig;
use crate::text::lemma_replace_keeps_length;
use crate::text::replace;
use crate::text::replace_seq;
use crate::text::signed_decimal;
use crate::text::signed_decimal_seq;
use vstd::prelude::*;
use vstd::string::StrSliceExecFns;
use vstd::string::StringExecFns;

verus! {

/// `text` in title case, as the crate `titlecase` writes it.
pub uninterp spec fn title_cased(text: Seq<char>) -> Seq<char>;

/// The longest name that a bucket can have, in characters.
pub const MAX_BUCKET_NAME_LENGTH: usize = 63;

/// `titlecase::titlecase`: the text in title case. The result depends on the
/// text alone; the style it follows is not stated here. The call goes as
/// deep as the text has opening brackets at its head, so it is made on short
/// texts only.
#[verifier::external_body]
fn title_case(text: &str) -> (titled: String)
    requires
        text@.len() <= MAX_BUCKET_NAME_LENGTH,
    ensures
        titled@ == title_cased(text@),
{
    titlecase::titlecase(text)
}

/// The resource of one bucket, with names in the places of what the policy
/// fills in.
pub const BUCKET_TEMPLATE: &'static str = "  $RESOURCE:
    Type: 'AWS::S3::Bucket'
    Properties:
      BucketName: '$BUCKET'
      AccessControl: Private
      PublicAccessBlockConfiguration:
        BlockPublicAcls: true
        BlockPublicPolicy: true
        IgnorePublicAcls: true
        RestrictPublicBuckets: true
      LifecycleConfiguration:
        Rules:
          - Id: DeleteFull
            Prefix: 'full/'
            Status: Enabled
            ExpirationInDays: $EXPIRE_IN_DAYS_FULL
          - Id: DeleteIncremental
            Prefix: 'incremental/'
            Status: Enabled
            ExpirationInDays: $EXPIRE_IN_DAYS_INC
          - Id: AbortIncompleteMultipartUpload
            Status: Enabled
            AbortIncompleteMultipartUpload:
              DaysAfterInitiation: 7
";

/// What the template begins with.
pub const TEMPLATE_HEAD: &'static str = "AWSTemplateFormatVersion: '2010-09-09'
Description: ZFS backup config
Resources:
";

/// The user of the buckets, up to the list of what the user may reach.
pub const TEMPLATE_USER: &'static str = "  CustomUser:
    Type: 'AWS::IAM::User'
    Properties:
      UserName: 'BackupAccount'
      Policies:
        - PolicyName: 'CustomRole'
          PolicyDocument:
            Statement:
              - Effect: Allow
                Action:
                  - s3:PutObject
                  - s3:GetObjectTagging
                  - s3:PutObjectTagging
                  - s3:ListBucket
                  - s3:AbortMultipartUpload
                  - s3:ListMultipartUploadParts
                Resource:
";

/// The name of the resource of `bucket`: the bucket's name in title case,
/// each hyphen counting as a space between words, and written without
/// spaces.
pub open spec fn resource_name_of(bucket: Seq<char>) -> Seq<char> {
    replace_seq(title_cased(replace_seq(bucket, "-"@, " "@)), " "@, Seq::empty())
}

/// The resource of the bucket of `config`: the template of a bucket with,
/// one after the other, the bucket's name, the resource's name, and the
/// lifetimes of full and of incremental backups filled in.
pub open spec fn resource_of(config: ConfigView) -> Seq<char> {
    replace_seq(
        replace_seq(
            replace_seq(
                replace_seq(BUCKET_TEMPLATE@, "$BUCKET"@, config.bucket),
                "$RESOURCE"@,
                resource_name_of(config.bucket),
            ),
            "$EXPIRE_IN_DAYS_FULL"@,
            signed_decimal_seq(config.full.expire_in_days),
        ),
        "$EXPIRE_IN_DAYS_INC"@,
        signed_decimal_seq(config.incremental.expire_in_days),
    )
}

/// Whether the name of the bucket of `config` is no longer than the store
/// lets a bucket's name be.
pub open spec fn bucket_name_fits(config: ConfigView) -> bool {
    config.bucket.len() <= MAX_BUCKET_NAME_LENGTH
}

/// Whether the name of each bucket of `configs` fits.
pub open spec fn bucket_names_fit(configs: Seq<ConfigView>) -> bool {
    forall|i: int| 0 <= i < configs.len() ==> bucket_name_fits(#[trigger] configs[i])
}

/// Writes the resource of the bucket of `config`, whose name is no longer
/// than a bucket's name can be.
pub fn create_for_bucket(config: &ZfsBackupConfig) -> (resource: String)
    requires
        bucket_name_fits(config@),
    ensures
        resource@ == resource_of(config@),
{
    let spaced = replace(config.bucket.as_str(), "-", " ");
    proof {
        reveal_strlit("-");
        reveal_strlit(" ");
        lemma_replace_keeps_length(config@.bucket, "-"@, " "@);
    }
    let titled = title_case(spaced.as_str());
    let resource_name = replace(titled.as_str(), " ", "");
    proof {
        reveal_strlit("");
        assert(""@ =~= Seq::<char>::empty());
    }
    let template = replace(BUCKET_TEMPLATE, "$BUCKET", config.bucket.as_str());
    let template = replace(template.as_str(), "$RESOURCE", resource_name.as_str());
    let full = signed_decimal(config.full.expire_in_days);
    let template = replace(template.as_str(), "$EXPIRE_IN_DAYS_FULL", full.as_str());
    let incremental = signed_decimal(config.incremental.expire_in_days);
    replace(template.as_str(), "$EXPIRE_IN_DAYS_INC", incremental.as_str())
}

/// The resources of the buckets of `configs`, one after the other.
pub open spec fn resources_of(configs: Seq<ConfigView>) -> Seq<char>
    decreases configs.len(),
{
    if configs.len() == 0 {
        Seq::empty()
    } else {
        resources_of(configs.drop_last()) + resource_of(configs.last())
    }
}

/// The two lines that let the user reach `bucket` and what is in it.
pub open spec fn grant_of(bucket: Seq<char>) -> Seq<char> {
    "                  - !Join ['', ['arn:aws:s3:::', '"@ + bucket + "' ]]\n"@
        + "                  - !Join ['', ['arn:aws:s3:::', '"@ + bucket + "/*' ]]\n"@
}

/// The lines that let the user reach the buckets of `configs`.
pub open spec fn grants_of(configs: Seq<ConfigView>) -> Seq<char>
    decreases configs.len(),
{
    if configs.len() == 0 {
        Seq::empty()
    } else {
        grants_of(configs.drop_last()) + grant_of(configs.last().bucket)
    }
}

/// The template of a configuration: the head, the resource of each bucket,
/// the user, and the user's reach into each bucket.
pub open spec fn template_of(configs: Seq<ConfigView>) -> Seq<char> {
    TEMPLATE_HEAD@ + resources_of(configs) + TEMPLATE_USER@ + grants_of(configs)
}

/// Writes the resource of the bucket of `config`; `None` where the bucket's
/// name is longer than a bucket's name can be.
pub fn try_create_for_bucket(config: &ZfsBackupConfig) -> (resource: Option<String>)
    ensures
        resource is Some == bucket_name_fits(config@),
        resource matches Some(text) ==> text@ == resource_of(config@),
{
    if config.bucket.as_str().unicode_len() <= MAX_BUCKET_NAME_LENGTH {
        Some(create_for_bucket(config))
    } else {
        None
    }
}

/// Whether the name of each bucket of `config` fits.
pub fn has_fitting_names(config: &ZfsBaseConfig) -> (fit: bool)
    ensures
        fit == bucket_names_fit(config@),
{
    let mut i: usize = 0;
    while i < config.configs.len()
        invariant
            i <= config.configs.len(),
            forall|k: int| 0 <= k < i ==> bucket_name_fits(#[trigger] config@[k]),
        decreases config.configs.len() - i,
    {
        if config.configs[i].bucket.as_str().unicode_len() > MAX_BUCKET_NAME_LENGTH {
            assert(!bucket_name_fits(config@[i as int]));
            return false;
        }
        assert(bucket_name_fits(config@[i as int]));
        i += 1;
    }
    true
}

/// Writes the template of the configuration `config`; `None` where the name
/// of one of its buckets is longer than a bucket's name can be.
pub fn try_generate_cloudformation(config: &ZfsBaseConfig) -> (template: Option<String>)
    ensures
        template is Some == bucket_names_fit(config@),
        template matches Some(text) ==> text@ == template_of(config@),
{
    if has_fitting_names(config) {
        Some(generate_cloudformation(config))
    } else {
        None
    }
}

/// Writes the template of the configuration `config`, in which no bucket's
/// name is longer than a bucket's name can be.
pub fn generate_cloudformation(config: &ZfsBaseConfig) -> (template: String)
    requires
        bucket_names_fit(config@),
    ensures
        template@ == template_of(config@),
{
    let mut template = String::from_str(TEMPLATE_HEAD);
    let mut i: usize = 0;
    proof {
        assert(config@.take(0) =~= Seq::empty());
        assert(template@ =~= TEMPLATE_HEAD@ + resources_of(config@.take(0)));
    }
    while i < config.configs.len()
        invariant
            i <= config.configs.len(),
            bucket_names_fit(config@),
            template@ == TEMPLATE_HEAD@ + resources_of(config@.take(i as int)),
        decreases config.configs.len() - i,
    {
        proof {
            assert(config@.take(i + 1).drop_last() =~= config@.take(i as int));
            assert(config@.take(i + 1).last() == config.configs@[i as int]@);
            assert(config@[i as int] == config.configs@[i as int]@);
        }
        let resource = create_for_bucket(&config.configs[i]);
        template.append(resource.as_str());
        assert(template@ =~= TEMPLATE_HEAD@ + resources_of(config@.take(i + 1)));
        i += 1;
    }
    template.append(TEMPLATE_USER);
    assert(config@.take(config.configs.len() as int) =~= config@);
    let ghost body = template@;
    let mut i: usize = 0;
    proof {
        assert(config@.take(0) =~= Seq::empty());
        assert(template@ =~= body + grants_of(config@.take(0)));
    }
    while i < config.configs.len()
        invariant
            i <= config.configs.len(),
            template@ == body + grants_of(config@.take(i as int)),
        decreases config.configs.len() - i,
    {
        proof {
            assert(config@.take(i + 1).drop_last() =~= config@.take(i as int));
            assert(config@.take(i + 1).last() == config.configs@[i as int]@);
        }
        let bucket = config.configs[i].bucket.as_str();
        template.append("                  - !Join ['', ['arn:aws:s3:::', '");
        template.append(bucket);
        template.append("' ]]\n");
        template.append("                  - !Join ['', ['arn:aws:s3:::', '");
        template.append(bucket);
        template.append("/*' ]]\n");
        assert(template@ =~= body + grants_of(config@.take(i + 1)));
        i += 1;
    }
    assert(config@.take(config.configs.len() as int) =~= config@);
    template
}

} // verus!
